//! The CMOS real-time clock's date and time as a Unix timestamp.
//!
//! The registers are read by the caller (seconds 0x00, minutes 0x02,
//! hours 0x04, day 0x07, month 0x08, two-digit year 0x09, status B 0x0B)
//! once the update-in-progress flag has cleared; status B bit 2 set means
//! binary values, clear means BCD.

use vstd::prelude::*;

verus! {

/// The RTC registers as read.
pub struct RtcRegs {
    pub sec: u8,
    pub min: u8,
    pub hour: u8,
    pub day: u8,
    pub mon: u8,
    pub year: u8,
    pub reg_b: u8,
}

/// The value of a BCD byte: low digit plus ten times the high one.
pub open spec fn bcd(v: u8) -> int {
    v % 16 + (v / 16) * 10
}

/// Converts a BCD byte.
pub fn bcd_to_bin(v: u8) -> (r: u8)
    ensures
        r == bcd(v),
{
    let lo = v & 0x0F;
    let hi = v >> 4;
    assert(lo == v % 16 && hi == v / 16) by (bit_vector)
        requires
            lo == v & 0x0Fu8,
            hi == v >> 4u8,
    ;
    lo + hi * 10
}

/// Status B says the registers hold binary values.
pub open spec fn binary_mode(reg_b: u8) -> bool {
    (reg_b / 4) % 2 == 1
}

/// A register's value in the clock's mode.
pub open spec fn field(v: u8, reg_b: u8) -> int {
    if binary_mode(reg_b) {
        v as int
    } else {
        bcd(v)
    }
}

/// The days of month `m` (1 to 12) in a common year.
pub open spec fn month_days(m: int) -> int {
    if m == 2 {
        28
    } else if m == 4 || m == 6 || m == 9 || m == 11 {
        30
    } else {
        31
    }
}

/// The days of a common year before month `m`.
pub open spec fn days_before_month(m: int) -> int
    decreases m,
{
    if m <= 1 {
        0
    } else {
        days_before_month(m - 1) + month_days(m - 1)
    }
}

proof fn lemma_days_before_month_nonneg(m: int)
    ensures
        days_before_month(m) >= 0,
    decreases m,
{
    if m > 1 {
        lemma_days_before_month_nonneg(m - 1);
    }
}

pub open spec fn is_leap(y: int) -> bool {
    (y % 4 == 0 && y % 100 != 0) || y % 400 == 0
}

/// The month register gives a month from 1 to 13 (the table of month
/// lengths has 12 entries).
pub open spec fn month_in_range(regs: RtcRegs) -> bool {
    1 <= field(regs.mon, regs.reg_b) <= 13
}

/// Whether `read_unix_timestamp` may be called on `regs`.
pub fn month_readable(regs: &RtcRegs) -> (r: bool)
    ensures
        r == month_in_range(*regs),
{
    let rb = regs.reg_b;
    let mon: u8 = if rb & 4 != 0 {
        regs.mon
    } else {
        bcd_to_bin(regs.mon)
    };
    assert(rb & 4u8 != 0u8 <==> (rb / 4) % 2 == 1) by (bit_vector);
    1 <= mon && mon <= 13
}

/// The Unix timestamp (seconds) of the time in `regs`, a date of the
/// years 2000 on in the Gregorian calendar; the clock keeps UTC.
pub fn read_unix_timestamp(regs: &RtcRegs) -> (r: i64)
    requires
        month_in_range(*regs),
    ensures
        r == unix_time(
            2000 + field(regs.year, regs.reg_b),
            field(regs.mon, regs.reg_b),
            field(regs.day, regs.reg_b),
            field(regs.hour, regs.reg_b),
            field(regs.min, regs.reg_b),
            field(regs.sec, regs.reg_b),
        ),
{
    let rb = regs.reg_b;
    assert(rb & 0x04u8 == 0 <==> (rb / 4) % 2 == 0) by (bit_vector);
    let (s, mi, h, d, mo, y): (i64, i64, i64, i64, i64, i64) = if regs.reg_b & 0x04 == 0 {
        (
            bcd_to_bin(regs.sec) as i64,
            bcd_to_bin(regs.min) as i64,
            bcd_to_bin(regs.hour) as i64,
            bcd_to_bin(regs.day) as i64,
            bcd_to_bin(regs.mon) as i64,
            bcd_to_bin(regs.year) as i64,
        )
    } else {
        (
            regs.sec as i64,
            regs.min as i64,
            regs.hour as i64,
            regs.day as i64,
            regs.mon as i64,
            regs.year as i64,
        )
    };
    assert(0 <= s <= 255 && 0 <= mi <= 255 && 0 <= h <= 255 && 0 <= d <= 255 && 0 <= y <= 255);
    let full_year = 2000 + y;
    let yy = full_year - 1970;
    let p = full_year - 1;
    let leaps = (p / 4 - p / 100 + p / 400) - 477;
    proof {
        lemma_leap_years_before(full_year as int);
    }
    let mut days = yy * 365 + leaps;
    let days_in_month: [i64; 12] = [31, 28, 31, 30, 31, 30, 31, 31, 30, 31, 30, 31];
    let ghost base = days;
    let mut m: usize = 0;
    let end = (mo - 1) as usize;
    while m < end
        invariant
            0 <= end <= 12,
            m <= end,
            days == base + days_before_month(m + 1),
            days <= base + 31 * m,
            0 <= base <= 110000,
            0 <= s <= 255 && 0 <= mi <= 255 && 0 <= h <= 255 && 0 <= d <= 255,
            base == yy * 365 + leap_years_before(full_year as int),
            full_year == yy + 1970,
            30 <= yy <= 285,
            days_in_month@ == seq![31i64, 28, 31, 30, 31, 30, 31, 31, 30, 31, 30, 31],
        decreases end - m,
    {
        days = days + days_in_month[m];
        m = m + 1;
    }
    assert(days <= 110000 + 31 * 12);
    assert(days >= -1000) by {
        lemma_days_before_month_nonneg(m as int + 1);
    }
    let is_leap = (full_year % 4 == 0 && full_year % 100 != 0) || full_year % 400 == 0;
    if is_leap && mo > 2 {
        days = days + 1;
    }
    days = days + d - 1;
    days * 86400 + h * 3600 + mi * 60 + s
}

// ─── Against the calendar ───────────────────────────────────────────

/// The number of leap years from 1970 up to, not including, `y`.
pub open spec fn leap_years_before(y: int) -> int
    decreases y - 1970,
{
    if y <= 1970 {
        0
    } else {
        leap_years_before(y - 1) + if is_leap(y - 1) {
            1int
        } else {
            0int
        }
    }
}

/// Seconds from 1970-01-01 00:00:00 UTC to the given date and time of the
/// Gregorian calendar.
pub open spec fn unix_time(year: int, mon: int, day: int, hour: int, min: int, sec: int) -> int {
    let days = (year - 1970) * 365 + leap_years_before(year) + days_before_month(mon) + if is_leap(
        year,
    ) && mon > 2 {
        1int
    } else {
        0int
    } + day - 1;
    days * 86400 + hour * 3600 + min * 60 + sec
}

/// The Gregorian leap years up to `n`, counted from year 0.
spec fn leaps_through(n: int) -> int {
    n / 4 - n / 100 + n / 400
}

proof fn lemma_leaps_step(n: int)
    requires
        n >= 1,
    ensures
        leaps_through(n) == leaps_through(n - 1) + if is_leap(n) {
            1int
        } else {
            0int
        },
{
    assert(n / 4 == (n - 1) / 4 + if n % 4 == 0 { 1int } else { 0int });
    assert(n / 100 == (n - 1) / 100 + if n % 100 == 0 { 1int } else { 0int });
    assert(n / 400 == (n - 1) / 400 + if n % 400 == 0 { 1int } else { 0int });
    assert(n % 400 == 0 ==> n % 100 == 0 && n % 4 == 0);
    assert(n % 100 == 0 ==> n % 4 == 0);
}

/// The leap years from 1970 up to `y` in closed form.
proof fn lemma_leap_years_before(y: int)
    requires
        1970 <= y,
    ensures
        leap_years_before(y) == leaps_through(y - 1) - 477,
        leap_years_before(y) >= 0,
        leap_years_before(y) <= (y - 1970) / 4 + 1,
    decreases y - 1970,
{
    if y > 1970 {
        lemma_leap_years_before(y - 1);
        lemma_leaps_step(y - 1);
    }
}

/// The clock's time runs on across the turn of a year: the first second
/// of a year comes one second after the last second of the year before.
pub proof fn lemma_new_year_follows(year: int)
    requires
        1970 <= year,
    ensures
        unix_time(year + 1, 1, 1, 0, 0, 0) == unix_time(year, 12, 31, 23, 59, 59) + 1,
{
    reveal_with_fuel(days_before_month, 13);
    assert(leap_years_before(year + 1) == leap_years_before(year) + if is_leap(year) {
        1int
    } else {
        0int
    });
}

/// The days of month `m` (1 to 12) of `year`.
pub open spec fn days_in(year: int, m: int) -> int {
    if m == 2 && is_leap(year) {
        29
    } else {
        month_days(m)
    }
}

/// The clock's time runs on across the turn of a month: the first second
/// of a month comes one second after the last second of the month before,
/// February having 29 days in a leap year.
pub proof fn lemma_new_month_follows(year: int, m: int)
    requires
        1970 <= year,
        1 <= m <= 11,
    ensures
        unix_time(year, m + 1, 1, 0, 0, 0) == unix_time(year, m, days_in(year, m), 23, 59, 59) + 1,
{
    assert(days_before_month(m + 1) == days_before_month(m) + month_days(m));
}

/// A date and time of the Gregorian calendar: year, month, day, hour,
/// minute, second.
pub type CalendarTime = (int, int, int, int, int, int);

/// A date and time from 1970 on that the calendar has.
pub open spec fn valid_time(t: CalendarTime) -> bool {
    &&& 1970 <= t.0
    &&& 1 <= t.1 <= 12
    &&& 1 <= t.2 <= days_in(t.0, t.1)
    &&& 0 <= t.3 < 24
    &&& 0 <= t.4 < 60
    &&& 0 <= t.5 < 60
}

/// The seconds from 1970-01-01 00:00:00 UTC to `t`.
pub open spec fn time_of(t: CalendarTime) -> int {
    unix_time(t.0, t.1, t.2, t.3, t.4, t.5)
}

/// The second after `t` on the calendar.
pub open spec fn next_second(t: CalendarTime) -> CalendarTime {
    if t.5 < 59 {
        (t.0, t.1, t.2, t.3, t.4, t.5 + 1)
    } else if t.4 < 59 {
        (t.0, t.1, t.2, t.3, t.4 + 1, 0)
    } else if t.3 < 23 {
        (t.0, t.1, t.2, t.3 + 1, 0, 0)
    } else if t.2 < days_in(t.0, t.1) {
        (t.0, t.1, t.2 + 1, 0, 0, 0)
    } else if t.1 < 12 {
        (t.0, t.1 + 1, 1, 0, 0, 0)
    } else {
        (t.0 + 1, 1, 1, 0, 0, 0)
    }
}

/// The time `k` seconds after `t` on the calendar.
pub open spec fn seconds_after(t: CalendarTime, k: nat) -> CalendarTime
    decreases k,
{
    if k == 0 {
        t
    } else {
        next_second(seconds_after(t, (k - 1) as nat))
    }
}

/// Each second of the calendar comes one second after the one before.
pub proof fn lemma_next_second(t: CalendarTime)
    requires
        valid_time(t),
    ensures
        valid_time(next_second(t)),
        time_of(next_second(t)) == time_of(t) + 1,
{
    if t.5 < 59 || t.4 < 59 || t.3 < 23 || t.2 < days_in(t.0, t.1) {
    } else if t.1 < 12 {
        lemma_new_month_follows(t.0, t.1);
    } else {
        lemma_new_year_follows(t.0);
    }
}

/// The timestamp counts seconds: `k` seconds after a date and time of the
/// calendar, its timestamp is `k` more, so of two instants the later has
/// the timestamp larger by the seconds between them.
pub proof fn lemma_seconds_between(t: CalendarTime, k: nat)
    requires
        valid_time(t),
    ensures
        valid_time(seconds_after(t, k)),
        time_of(seconds_after(t, k)) == time_of(t) + k,
    decreases k,
{
    if k > 0 {
        lemma_seconds_between(t, (k - 1) as nat);
        lemma_next_second(seconds_after(t, (k - 1) as nat));
    }
}

} // verus!
