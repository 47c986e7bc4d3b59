//! Calendar arithmetic: civil dates from day counts and back, ISO-8601
//! timestamps, weekdays, and the short texts built from them.
use vstd::prelude::*;
use crate::text::{
    int_text, push_i64, push_text, padded, push_padded, push_char, parse_int, parse_int_in, pow10, lemma_parse_int_bound,
};
use vstd::string::StringSliceAdditionalSpecFns;
use vstd::utf8::is_char_boundary;

verus! {

/// Quotient of Rust's `/` on signed integers: rounds toward zero.
pub open spec fn tdiv(a: int, b: int) -> int
    recommends
        b > 0,
{
    if a >= 0 {
        a / b
    } else {
        -((-a) / b)
    }
}

/// The proleptic Gregorian date `(year, month, day)` lying `z` days after
/// 1970-01-01: days are grouped in 400-year eras of 146097 days, each era
/// into years that start on March 1st, each year into months of 153 days
/// per five months.
pub open spec fn civil_from_days(z: int) -> (int, int, int) {
    let zz = z + 719468;
    let era = zz / 146097;
    let doe = zz - era * 146097;
    let yoe = (doe - doe / 1460 + doe / 36524 - doe / 146096) / 365;
    let doy = doe - (365 * yoe + yoe / 4 - yoe / 100);
    let mp = (5 * doy + 2) / 153;
    let d = doy - (153 * mp + 2) / 5 + 1;
    let m = if mp < 10 {
        mp + 3
    } else {
        mp - 9
    };
    let y = yoe + era * 400 + if m <= 2 {
        1int
    } else {
        0
    };
    (y, m, d)
}

proof fn lemma_era(zz: int)
    requires
        zz < 0,
    ensures
        tdiv(zz - 146096, 146097) == zz / 146097,
{
    let q = zz / 146097;
    let r = zz % 146097;
    vstd::arithmetic::div_mod::lemma_fundamental_div_mod(zz, 146097);
    vstd::arithmetic::div_mod::lemma_fundamental_div_mod_converse(
        -(zz - 146096),
        146097,
        -q,
        146096 - r,
    );
}

/// The civil date `z` days after 1970-01-01, as `(year, month, day)`.
pub fn days_to_ymd(z: i64) -> (r: (i64, i64, i64))
    requires
        z <= i64::MAX - 719468,
    ensures
        (r.0 as int, r.1 as int, r.2 as int) == civil_from_days(z as int),
{
    let z = z + 719468;
    let era = if z >= 0 {
        z
    } else {
        z - 146096
    } / 146097;
    proof {
        if z < 0 {
            lemma_era(z as int);
        }
        assert(era == (z as int) / 146097);
    }
    let doe = z - era * 146097;
    assert(0 <= doe < 146097);
    let yoe = (doe - doe / 1460 + doe / 36524 - doe / 146096) / 365;
    assert(0 <= yoe < 400);
    let y = yoe + era * 400;
    let doy = doe - (365 * yoe + yoe / 4 - yoe / 100);
    assert(0 <= doy < 400) by (nonlinear_arith)
        requires
            0 <= doe < 146097,
            yoe == (doe - doe / 1460 + doe / 36524 - doe / 146096) / 365,
            doy == doe - (365 * yoe + yoe / 4 - yoe / 100),
    ;
    let mp = (5 * doy + 2) / 153;
    let d = doy - (153 * mp + 2) / 5 + 1;
    let m = if mp < 10 {
        mp + 3
    } else {
        mp - 9
    };
    let y = if m <= 2 {
        y + 1
    } else {
        y
    };
    (y, m, d)
}

/// `YYYY-MM-DD` text of a civil date, each part zero-padded (`{:04}`,
/// `{:02}`).
pub open spec fn ymd_text(ymd: (int, int, int)) -> Seq<char> {
    padded(ymd.0, 4) + seq!['-'] + padded(ymd.1, 2) + seq!['-'] + padded(ymd.2, 2)
}

/// The date text for "yesterday" at `now_secs` seconds after the Unix
/// epoch: the whole days before the previous day's instant, counted from
/// day 719468, as `YYYY-MM-DD`.
pub open spec fn yesterday_text(now_secs: int) -> Seq<char> {
    ymd_text(civil_from_days((now_secs - 86400) / 86400 + 719468))
}

/// Yesterday's date label, for the usage history lookup.
pub fn yesterday_iso(now_secs: u64) -> (r: String)
    requires
        now_secs >= 86400,
    ensures
        r@ == yesterday_text(now_secs as int),
{
    let day_secs = now_secs - 86400;
    let days = day_secs / 86400;
    let (y, m, d) = days_to_ymd(days as i64 + 719468);
    let mut r = String::new();
    push_padded(&mut r, y, 4);
    push_char(&mut r, '-');
    push_padded(&mut r, m, 2);
    push_char(&mut r, '-');
    push_padded(&mut r, d, 2);
    assert(r@ =~= yesterday_text(now_secs as int));
    r
}

/// Day number, counted from 1970-01-01, of a date given as year, month and
/// day, by way of its Julian day number: months are counted from March,
/// a year has 365.25 days and a month 30.6001 (with the fractions cut
/// toward zero), and the Gregorian correction is `2 - a + a / 4` with
/// `a` the century.
pub open spec fn epoch_days(year: int, month: int, day: int) -> int {
    let y = if month <= 2 {
        year - 1
    } else {
        year
    };
    let m = if month <= 2 {
        month + 12
    } else {
        month
    };
    let a = tdiv(y, 100);
    let b = 2 - a + tdiv(a, 4);
    let jd = tdiv(1461 * (y + 4716), 4) + tdiv(306001 * (m + 1), 10000) + day + b - 1524;
    jd - 2440588
}

/// Days from 1970-01-01 to the given date.
///
/// The year and month bounds are those within which the fractional
/// year and month lengths are exact in double precision; the day bound
/// keeps the sum within `i64`.
pub fn days_since_epoch(year: i64, month: i64, day: i64) -> (r: i64)
    requires
        -1_000_000_000 <= year <= 1_000_000_000,
        -1_000_000 <= month <= 1_000_000,
        -4_000_000_000_000_000_000 <= day <= 4_000_000_000_000_000_000,
    ensures
        r as int == epoch_days(year as int, month as int, day as int),
{
    let y = if month <= 2 {
        year - 1
    } else {
        year
    };
    let m = if month <= 2 {
        month + 12
    } else {
        month
    };
    let a = y / 100;
    let b = 2 - a + a / 4;
    let jd = (1461 * (y + 4716)) / 4 + (306001 * (m + 1)) / 10000 + day + b - 1524;
    jd - 2440588
}

/// The bytes of a string read one by one as characters: ASCII bytes give
/// themselves, and no other byte is a digit or a sign.
pub open spec fn byte_text(bs: Seq<u8>) -> Seq<char> {
    Seq::new(bs.len(), |i: int| bs[i] as char)
}

/// `s[lo..hi].parse::<i64>()` on a string whose bytes are `bs`.
pub open spec fn field(bs: Seq<u8>, lo: int, hi: int) -> Option<int> {
    parse_int(byte_text(bs.subrange(lo, hi)), i64::MIN as int, i64::MAX as int)
}

/// First byte of the `k`-th field of an ISO-8601 timestamp
/// (`0, 5, 8, 11, 14, 17`).
pub open spec fn field_lo(k: int) -> int {
    if k == 0 {
        0
    } else {
        3 * k + 2
    }
}

/// End byte of the `k`-th field (`4, 7, 10, 13, 16, 19`).
pub open spec fn field_hi(k: int) -> int {
    3 * k + 4
}

/// Reading fields `k..6` in turn, each only when the ones before it
/// parsed, takes every slice at character boundaries.
pub open spec fn slices_ok_from(bs: Seq<u8>, k: int) -> bool
    decreases 6 - k,
{
    if k >= 6 || k < 0 {
        true
    } else {
        is_char_boundary(bs, field_lo(k)) && is_char_boundary(bs, field_hi(k)) && (field(
            bs,
            field_lo(k),
            field_hi(k),
        ) is None || slices_ok_from(bs, k + 1))
    }
}

/// The six fields of an ISO-8601 timestamp are read from bytes
/// `0..4, 5..7, 8..10, 11..13, 14..16, 17..19`, a field only when the
/// ones before it parsed; this holds when every slice read starts and
/// ends on a character boundary.
pub open spec fn iso_slices_ok(bs: Seq<u8>) -> bool {
    bs.len() < 19 || slices_ok_from(bs, 0)
}

/// Milliseconds since the Unix epoch of the timestamp whose bytes are
/// `bs` (`YYYY-MM-DDTHH:MM:SS`, anything after the seconds ignored), or
/// `None` when it is shorter than 19 bytes or a field does not parse.
pub open spec fn iso_ms(bs: Seq<u8>) -> Option<int> {
    if bs.len() < 19 {
        None
    } else {
        match (
            field(bs, 0, 4),
            field(bs, 5, 7),
            field(bs, 8, 10),
            field(bs, 11, 13),
            field(bs, 14, 16),
            field(bs, 17, 19),
        ) {
            (Some(y), Some(mo), Some(d), Some(h), Some(mi), Some(sec)) => Some(
                (epoch_days(y, mo, d) * 86400 + h * 3600 + mi * 60 + sec) * 1000,
            ),
            _ => None,
        }
    }
}

/// The characters of `b[lo..hi]`, one per byte.
fn byte_field(b: &[u8], lo: usize, hi: usize) -> (r: Vec<char>)
    requires
        lo <= hi <= b@.len(),
    ensures
        r@ == byte_text(b@.subrange(lo as int, hi as int)),
{
    let mut r: Vec<char> = Vec::new();
    let mut i = lo;
    while i < hi
        invariant
            lo <= i <= hi <= b@.len(),
            r@ == byte_text(b@.subrange(lo as int, i as int)),
        decreases hi - i,
    {
        r.push(b[i] as char);
        assert(byte_text(b@.subrange(lo as int, i + 1)) =~= byte_text(
            b@.subrange(lo as int, i as int),
        ).push(b@[i as int] as char));
        i = i + 1;
    }
    r
}

/// Reads the field `b[lo..hi]` as an `i64`.
fn read_field(b: &[u8], lo: usize, hi: usize) -> (r: Option<i64>)
    requires
        lo < hi <= b@.len(),
    ensures
        r matches Some(v) ==> field(b@, lo as int, hi as int) == Some(v as int) && -(pow10(
            (hi - lo - 1) as nat,
        ) as int) < v < pow10((hi - lo) as nat),
        r is None ==> field(b@, lo as int, hi as int) is None,
{
    let cs = byte_field(b, lo, hi);
    let r = parse_int_in(&cs, i64::MIN, i64::MAX);
    proof {
        if r is Some {
            lemma_parse_int_bound(cs@, i64::MIN as int, i64::MAX as int);
        }
    }
    r
}

/// Milliseconds since the Unix epoch of an ISO-8601 timestamp such as
/// `2025-03-01T12:30:00Z`.
pub fn parse_iso_ms(s: &str) -> (r: Option<i64>)
    requires
        iso_slices_ok(s.spec_bytes()),
    ensures
        r matches Some(v) ==> iso_ms(s.spec_bytes()) == Some(v as int),
        r is None ==> iso_ms(s.spec_bytes()) is None,
{
    let b = s.as_bytes();
    if b.len() < 19 {
        return None;
    }
    proof {
        reveal_with_fuel(pow10, 5);
    }
    let year = match read_field(b, 0, 4) {
        Some(v) => v,
        None => return None,
    };
    let month = match read_field(b, 5, 7) {
        Some(v) => v,
        None => return None,
    };
    let day = match read_field(b, 8, 10) {
        Some(v) => v,
        None => return None,
    };
    let hour = match read_field(b, 11, 13) {
        Some(v) => v,
        None => return None,
    };
    let min = match read_field(b, 14, 16) {
        Some(v) => v,
        None => return None,
    };
    let sec = match read_field(b, 17, 19) {
        Some(v) => v,
        None => return None,
    };
    let days = days_since_epoch(year, month, day);
    assert(-10_000_000 < days < 10_000_000);
    Some((days * 86400 + hour * 3600 + min * 60 + sec) * 1000)
}

/// Whether reading the fields of the timestamp `s` cuts no character:
/// the test that makes `parse_iso_ms` safe to call.
pub fn iso_slices_fit(s: &str) -> (r: bool)
    ensures
        r == iso_slices_ok(s.spec_bytes()),
{
    let b = s.as_bytes();
    if b.len() < 19 {
        return true;
    }
    let mut ok = true;
    let mut k: usize = 6;
    while k > 0
        invariant
            k <= 6,
            b@ == s.spec_bytes(),
            b@.len() >= 19,
            ok == slices_ok_from(b@, k as int),
        decreases k,
    {
        k = k - 1;
        let lo: usize = if k == 0 {
            0
        } else {
            3 * k + 2
        };
        let hi: usize = 3 * k + 4;
        ok = s.is_char_boundary(lo) && s.is_char_boundary(hi) && (read_field(b, lo, hi).is_none()
            || ok);
    }
    ok
}

/// How long until the instant `ts` (milliseconds) from `now`, as the
/// usage view shows a rate limit's reset: `now` once it has passed, else
/// whole days and hours, or hours and minutes, or minutes.
pub open spec fn until_text(ts: int, now: int) -> Seq<char> {
    let diff = ts - now;
    let total_mins = diff / 60000;
    let days = total_mins / 1440;
    let hours = (total_mins % 1440) / 60;
    let mins = total_mins % 60;
    if diff <= 0 {
        "now"@
    } else if days > 0 {
        int_text(days) + "d "@ + int_text(hours) + "h"@
    } else if hours > 0 {
        int_text(hours) + "h "@ + int_text(mins) + "m"@
    } else {
        int_text(mins) + "m"@
    }
}

/// The reset time of a rate limit, given as an ISO-8601 timestamp, as
/// time left from `now_ms`; a timestamp that does not parse counts as now.
pub fn format_resets_at(iso: &str, now_ms: i64) -> (r: String)
    requires
        iso_slices_ok(iso.spec_bytes()),
        iso_ms(iso.spec_bytes()) matches Some(t) ==> i64::MIN <= t - now_ms <= i64::MAX,
    ensures
        r@ == until_text(
            match iso_ms(iso.spec_bytes()) {
                Some(t) => t,
                None => now_ms as int,
            },
            now_ms as int,
        ),
{
    let ts_ms = match parse_iso_ms(iso) {
        Some(t) => t,
        None => now_ms,
    };
    let diff_ms = ts_ms - now_ms;
    let mut r = String::new();
    if diff_ms <= 0 {
        push_text(&mut r, "now");
        assert(r@ =~= "now"@);
        return r;
    }
    let total_mins = diff_ms / 60_000;
    let days = total_mins / (60 * 24);
    let hours = (total_mins % (60 * 24)) / 60;
    let mins = total_mins % 60;
    if days > 0 {
        push_i64(&mut r, days);
        push_text(&mut r, "d ");
        push_i64(&mut r, hours);
        push_text(&mut r, "h");
    } else if hours > 0 {
        push_i64(&mut r, hours);
        push_text(&mut r, "h ");
        push_i64(&mut r, mins);
        push_text(&mut r, "m");
    } else {
        push_i64(&mut r, mins);
        push_text(&mut r, "m");
    }
    assert(r@ =~= until_text(ts_ms as int, now_ms as int));
    r
}

/// Remainder of Rust's `%` on signed integers: takes the sign of `a`.
pub open spec fn trem(a: int, b: int) -> int {
    a - b * tdiv(a, b)
}

/// Zeller's congruence (which gives 0 for Saturday, 1 for Sunday, ...),
/// counting January and February as months 13 and 14 of the year before,
/// then shifted by five: a Sunday-based weekday index that is one day
/// early, so a Monday gives 0 (Sunday) and a Sunday gives 6 (Saturday).
pub open spec fn weekday(year: int, month: int, day: int) -> int {
    let y = if month < 3 {
        year - 1
    } else {
        year
    };
    let m = if month < 3 {
        month + 12
    } else {
        month
    };
    let k = trem(y, 100);
    let j = tdiv(y, 100);
    let x = day + tdiv(13 * (m + 1), 5) + k + tdiv(k, 4) + tdiv(j, 4) - 2 * j;
    (x % 7 + 5) % 7
}

/// Each step of the weekday sum stays within `i64`.
pub open spec fn weekday_fits(year: int, month: int, day: int) -> bool {
    let y = if month < 3 {
        year - 1
    } else {
        year
    };
    let m = if month < 3 {
        month + 12
    } else {
        month
    };
    let k = trem(y, 100);
    let j = tdiv(y, 100);
    let s1 = day + tdiv(13 * (m + 1), 5);
    let s2 = s1 + k;
    let s3 = s2 + tdiv(k, 4);
    let s4 = s3 + tdiv(j, 4);
    &&& i64::MIN <= y
    &&& 13 * (m + 1) <= i64::MAX
    &&& 13 * (m + 1) >= i64::MIN
    &&& i64::MIN <= s1 <= i64::MAX
    &&& i64::MIN <= s2 <= i64::MAX
    &&& i64::MIN <= s3 <= i64::MAX
    &&& i64::MIN <= s4 <= i64::MAX
    &&& i64::MIN <= s4 - 2 * j <= i64::MAX
}

/// The weekday index the usage chart labels a date with (0 names Sunday,
/// 6 Saturday); as `weekday` says, it is the index of the day before the
/// date, so 2024-01-15, a Monday, gives 0.
pub fn date_to_dow(year: i64, month: i64, day: i64) -> (r: usize)
    requires
        weekday_fits(year as int, month as int, day as int),
    ensures
        r as int == weekday(year as int, month as int, day as int),
        r < 7,
{
    let (y, m) = if month < 3 {
        (year - 1, month + 12)
    } else {
        (year, month)
    };
    let k = y % 100;
    let j = y / 100;
    let x = day + (13 * (m + 1)) / 5 + k + k / 4 + j / 4 - 2 * j;
    let r7 = x % 7;
    let h = if r7 < 0 {
        r7 + 7
    } else {
        r7
    };
    assert(h as int == (x as int) % 7);
    ((h + 5) % 7) as usize
}

/// Three-letter name of weekday `i` (0 is Sunday).
pub open spec fn weekday_name(i: int) -> Seq<char> {
    if i == 0 {
        "Sun"@
    } else if i == 1 {
        "Mon"@
    } else if i == 2 {
        "Tue"@
    } else if i == 3 {
        "Wed"@
    } else if i == 4 {
        "Thu"@
    } else if i == 5 {
        "Fri"@
    } else {
        "Sat"@
    }
}

/// Fields of a value read with `s[lo..hi].parse().unwrap_or(0)`.
pub open spec fn field_or_zero(bs: Seq<u8>, lo: int, hi: int) -> int {
    match field(bs, lo, hi) {
        Some(v) => v,
        None => 0,
    }
}

/// The weekday label of a `YYYY-MM-DD` date for the daily usage chart;
/// blank when the text is shorter than a date, and a field that does not
/// parse counts as zero.
pub open spec fn day_abbrev(bs: Seq<u8>) -> Seq<char> {
    if bs.len() < 10 {
        "   "@
    } else {
        weekday_name(
            weekday(field_or_zero(bs, 0, 4), field_or_zero(bs, 5, 7), field_or_zero(bs, 8, 10)),
        )
    }
}

fn weekday_label(i: usize) -> (r: &'static str)
    ensures
        r@ == weekday_name(i as int),
{
    if i == 0 {
        "Sun"
    } else if i == 1 {
        "Mon"
    } else if i == 2 {
        "Tue"
    } else if i == 3 {
        "Wed"
    } else if i == 4 {
        "Thu"
    } else if i == 5 {
        "Fri"
    } else {
        "Sat"
    }
}

fn field_or_zero_at(b: &[u8], lo: usize, hi: usize) -> (r: i64)
    requires
        lo < hi <= b@.len(),
    ensures
        r as int == field_or_zero(b@, lo as int, hi as int),
        -(pow10((hi - lo - 1) as nat) as int) < r < pow10((hi - lo) as nat),
{
    match read_field(b, lo, hi) {
        Some(v) => v,
        None => {
            proof {
                crate::text::lemma_pow10_pos((hi - lo - 1) as nat);
                crate::text::lemma_pow10_pos((hi - lo) as nat);
            }
            0
        },
    }
}

/// Weekday abbreviation (`"Mon"`, ...) of a `YYYY-MM-DD` date.
pub fn day_abbrev_from_iso(date: &str) -> (r: &'static str)
    requires
        date.spec_bytes().len() >= 10 ==> is_char_boundary(date.spec_bytes(), 4)
            && is_char_boundary(date.spec_bytes(), 5) && is_char_boundary(date.spec_bytes(), 7)
            && is_char_boundary(date.spec_bytes(), 8) && is_char_boundary(date.spec_bytes(), 10),
    ensures
        r@ == day_abbrev(date.spec_bytes()),
{
    let b = date.as_bytes();
    if b.len() < 10 {
        return "   ";
    }
    proof {
        reveal_with_fuel(pow10, 5);
    }
    let year = field_or_zero_at(b, 0, 4);
    let month = field_or_zero_at(b, 5, 7);
    let day = field_or_zero_at(b, 8, 10);
    let dow = date_to_dow(year, month, day);
    weekday_label(dow % 7)
}

} // verus!
