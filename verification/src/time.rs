use vstd::prelude::*;

verus! {

/// A calendar timestamp with second precision, proleptic Gregorian,
/// years 0 through 9999.
#[derive(Clone, Copy, Debug, PartialEq, Eq, Structural)]
pub struct CivilDateTime {
    pub year: u16,
    pub month: u8,
    pub day: u8,
    pub hour: u8,
    pub minute: u8,
    pub second: u8,
}

/// Years divisible by 4 are leap years, except centuries not divisible by 400.
pub open spec fn spec_is_leap_year(y: int) -> bool {
    (y % 4 == 0 && y % 100 != 0) || y % 400 == 0
}

pub fn is_leap_year(y: u16) -> (r: bool)
    ensures
        r == spec_is_leap_year(y as int),
{
    (y % 4 == 0 && y % 100 != 0) || y % 400 == 0
}

/// Number of days of month `m` (1-based) in year `y`.
pub open spec fn spec_days_in_month(y: int, m: int) -> int {
    if m == 2 {
        if spec_is_leap_year(y) {
            29
        } else {
            28
        }
    } else if m == 4 || m == 6 || m == 9 || m == 11 {
        30
    } else {
        31
    }
}

pub fn days_in_month(y: u16, m: u8) -> (r: u8)
    ensures
        r == spec_days_in_month(y as int, m as int),
{
    if m == 2 {
        if is_leap_year(y) {
            29
        } else {
            28
        }
    } else if m == 4 || m == 6 || m == 9 || m == 11 {
        30
    } else {
        31
    }
}

/// Length of year `y` in days.
pub open spec fn spec_year_length(y: int) -> int {
    if spec_is_leap_year(y) {
        366
    } else {
        365
    }
}

/// Days of year `y` that lie before month `m` (1-based).
pub open spec fn spec_days_before_month(y: int, m: int) -> int
    decreases m,
{
    if m <= 1 {
        0
    } else {
        spec_days_before_month(y, m - 1) + spec_days_in_month(y, m - 1)
    }
}

/// Days lying before year `y`, counted from the start of year 0.
pub open spec fn spec_days_before_year(y: int) -> int
    decreases y,
{
    if y <= 0 {
        0
    } else {
        spec_days_before_year(y - 1) + spec_year_length(y - 1)
    }
}

/// Day number of a date, counted from 0000-01-01 as day 0.
pub open spec fn spec_epoch_days(y: int, m: int, d: int) -> int {
    spec_days_before_year(y) + spec_days_before_month(y, m) + (d - 1)
}

impl CivilDateTime {
    /// A valid timestamp: the date exists in the calendar and the time of day
    /// is within bounds.
    pub open spec fn wf(&self) -> bool {
        &&& self.year <= 9999
    &&& 1 <= self.month <= 12
    &&& 1 <= self.day <= spec_days_in_month(self.year as int, self.month as int)
    &&& self.hour < 24
    &&& self.minute < 60
    &&& self.second < 60
    }

    /// Minute number of this timestamp, counted from 0000-01-01 00:00.
    pub open spec fn epoch_minutes(&self) -> int {
        spec_epoch_days(self.year as int, self.month as int, self.day as int) * 1440
            + self.hour * 60 + self.minute
    }

    /// Second number of this timestamp, counted from 0000-01-01 00:00:00.
    pub open spec fn epoch_seconds(&self) -> int {
        self.epoch_minutes() * 60 + self.second
    }

    /// The earliest supported timestamp date, 0000-01-01.
    pub open spec fn on_min_date(&self) -> bool {
        self.year == 0 && self.month == 1 && self.day == 1
    }

    /// The latest supported timestamp date, 9999-12-31.
    pub open spec fn on_max_date(&self) -> bool {
        self.year == 9999 && self.month == 12 && self.day == 31
    }
}

/// A full year holds as many days before a fictitious thirteenth month as its
/// length says.
proof fn lemma_days_in_full_year(y: int)
    ensures
        spec_days_before_month(y, 13) == spec_year_length(y),
{
    reveal_with_fuel(spec_days_before_month, 14);
}

/// The calendar date one day earlier.
pub open spec fn spec_date_prev(dt: CivilDateTime) -> CivilDateTime {
    if dt.day > 1 {
        CivilDateTime { day: (dt.day - 1) as u8, ..dt }
    } else if dt.month > 1 {
        CivilDateTime {
            month: (dt.month - 1) as u8,
            day: spec_days_in_month(dt.year as int, dt.month - 1) as u8,
            ..dt
        }
    } else {
        CivilDateTime { year: (dt.year - 1) as u16, month: 12, day: 31, ..dt }
    }
}

/// The calendar date one day later.
pub open spec fn spec_date_next(dt: CivilDateTime) -> CivilDateTime {
    if dt.day < spec_days_in_month(dt.year as int, dt.month as int) {
        CivilDateTime { day: (dt.day + 1) as u8, ..dt }
    } else if dt.month < 12 {
        CivilDateTime { month: (dt.month + 1) as u8, day: 1, ..dt }
    } else {
        CivilDateTime { year: (dt.year + 1) as u16, month: 1, day: 1, ..dt }
    }
}

/// Stepping a valid date back one day lands on the previous valid date: the
/// day number drops by exactly one and the time of day is untouched.
pub proof fn lemma_date_prev(dt: CivilDateTime)
    requires
        dt.wf(),
        !dt.on_min_date(),
    ensures
        spec_date_prev(dt).wf(),
        spec_epoch_days(
            spec_date_prev(dt).year as int,
            spec_date_prev(dt).month as int,
            spec_date_prev(dt).day as int,
        ) == spec_epoch_days(dt.year as int, dt.month as int, dt.day as int) - 1,
        spec_date_prev(dt).hour == dt.hour,
        spec_date_prev(dt).minute == dt.minute,
        spec_date_prev(dt).second == dt.second,
{
    let y = dt.year as int;
    let m = dt.month as int;
    if dt.day > 1 {
    } else if dt.month > 1 {
        assert(spec_days_before_month(y, m) == spec_days_before_month(y, m - 1)
            + spec_days_in_month(y, m - 1));
    } else {
        lemma_days_in_full_year(y - 1);
        assert(spec_days_before_year(y) == spec_days_before_year(y - 1)
            + spec_year_length(y - 1));
        assert(spec_days_before_month(y - 1, 13) == spec_days_before_month(y - 1, 12)
            + spec_days_in_month(y - 1, 12));
        assert(spec_days_before_month(y, 1) == 0);
    }
}

/// Stepping a valid date forward one day lands on the next valid date.
pub proof fn lemma_date_next(dt: CivilDateTime)
    requires
        dt.wf(),
        !dt.on_max_date(),
    ensures
        spec_date_next(dt).wf(),
        spec_epoch_days(
            spec_date_next(dt).year as int,
            spec_date_next(dt).month as int,
            spec_date_next(dt).day as int,
        ) == spec_epoch_days(dt.year as int, dt.month as int, dt.day as int) + 1,
        spec_date_next(dt).hour == dt.hour,
        spec_date_next(dt).minute == dt.minute,
        spec_date_next(dt).second == dt.second,
{
    let y = dt.year as int;
    let m = dt.month as int;
    if (dt.day as int) < spec_days_in_month(y, m) {
    } else if dt.month < 12 {
        assert(spec_days_before_month(y, m + 1) == spec_days_before_month(y, m)
            + spec_days_in_month(y, m));
    } else {
        lemma_days_in_full_year(y);
        assert(spec_days_before_year(y + 1) == spec_days_before_year(y)
            + spec_year_length(y));
        assert(spec_days_before_month(y, 13) == spec_days_before_month(y, 12)
            + spec_days_in_month(y, 12));
        assert(spec_days_before_month(y + 1, 1) == 0);
    }
}

/// The timestamp moved back to UTC by undoing a zone offset of `off` minutes,
/// or `None` when the result would leave the supported year range.
pub open spec fn spec_utc_shift(dt: CivilDateTime, off: int) -> Option<CivilDateTime> {
    let shifted = dt.hour * 60 + dt.minute - off;
    if 0 <= shifted < 1440 {
        Some(CivilDateTime { hour: (shifted / 60) as u8, minute: (shifted % 60) as u8, ..dt })
    } else if shifted < 0 {
        if dt.on_min_date() {
            None
        } else {
            Some(
                CivilDateTime {
                    hour: ((shifted + 1440) / 60) as u8,
                    minute: ((shifted + 1440) % 60) as u8,
                    ..spec_date_prev(dt)
                },
            )
        }
    } else {
        if dt.on_max_date() {
            None
        } else {
            Some(
                CivilDateTime {
                    hour: ((shifted - 1440) / 60) as u8,
                    minute: ((shifted - 1440) % 60) as u8,
                    ..spec_date_next(dt)
                },
            )
        }
    }
}

/// Undoing a zone offset keeps the instant: the minute number of the shifted
/// timestamp differs from the original by exactly the offset, and the seconds
/// are untouched.
pub proof fn lemma_utc_shift_preserves_instant(dt: CivilDateTime, off: int)
    requires
        dt.wf(),
        -1440 < off < 1440,
        spec_utc_shift(dt, off) is Some,
    ensures
        spec_utc_shift(dt, off)->Some_0.wf(),
        spec_utc_shift(dt, off)->Some_0.epoch_minutes() == dt.epoch_minutes() - off,
        spec_utc_shift(dt, off)->Some_0.second == dt.second,
{
    let shifted = dt.hour * 60 + dt.minute - off;
    if 0 <= shifted < 1440 {
    } else if shifted < 0 {
        lemma_date_prev(dt);
    } else {
        lemma_date_next(dt);
    }
}

/// Computes `spec_utc_shift` on a concrete timestamp.
pub fn utc_shift(dt: &CivilDateTime, off: i32) -> (r: Option<CivilDateTime>)
    requires
        dt.wf(),
        -1440 < off < 1440,
    ensures
        r == spec_utc_shift(*dt, off as int),
        r matches Some(u) ==> u.wf() && u.epoch_minutes() == dt.epoch_minutes() - off
            && u.second == dt.second,
{
    proof {
        if spec_utc_shift(*dt, off as int) is Some {
            lemma_utc_shift_preserves_instant(*dt, off as int);
        }
    }
    let shifted: i32 = (dt.hour as i32) * 60 + (dt.minute as i32) - off;
    if 0 <= shifted && shifted < 1440 {
        Some(
            CivilDateTime {
                hour: (shifted / 60) as u8,
                minute: (shifted % 60) as u8,
                ..*dt
            },
        )
    } else if shifted < 0 {
        if dt.year == 0 && dt.month == 1 && dt.day == 1 {
            None
        } else {
            let p = date_prev(dt);
            Some(
                CivilDateTime {
                    hour: ((shifted + 1440) / 60) as u8,
                    minute: ((shifted + 1440) % 60) as u8,
                    ..p
                },
            )
        }
    } else {
        if dt.year == 9999 && dt.month == 12 && dt.day == 31 {
            None
        } else {
            let n = date_next(dt);
            Some(
                CivilDateTime {
                    hour: ((shifted - 1440) / 60) as u8,
                    minute: ((shifted - 1440) % 60) as u8,
                    ..n
                },
            )
        }
    }
}

/// Computes `spec_date_prev` on a concrete date.
pub fn date_prev(dt: &CivilDateTime) -> (r: CivilDateTime)
    requires
        dt.wf(),
        !dt.on_min_date(),
    ensures
        r == spec_date_prev(*dt),
{
    if dt.day > 1 {
        CivilDateTime { day: dt.day - 1, ..*dt }
    } else if dt.month > 1 {
        CivilDateTime { month: dt.month - 1, day: days_in_month(dt.year, dt.month - 1), ..*dt }
    } else {
        CivilDateTime { year: dt.year - 1, month: 12, day: 31, ..*dt }
    }
}

/// Computes `spec_date_next` on a concrete date.
pub fn date_next(dt: &CivilDateTime) -> (r: CivilDateTime)
    requires
        dt.wf(),
        !dt.on_max_date(),
    ensures
        r == spec_date_next(*dt),
{
    if dt.day < days_in_month(dt.year, dt.month) {
        CivilDateTime { day: dt.day + 1, ..*dt }
    } else if dt.month < 12 {
        CivilDateTime { month: dt.month + 1, day: 1, ..*dt }
    } else {
        CivilDateTime { year: dt.year + 1, month: 1, day: 1, ..*dt }
    }
}

/// The numeric value of an ASCII digit character.
pub open spec fn spec_digit_val(c: char) -> int {
    c as int - '0' as int
}

/// Whether `c` is an ASCII decimal digit.
pub open spec fn spec_is_digit(c: char) -> bool {
    '0' <= c && c <= '9'
}

/// Reads one digit character, if it is one.
pub fn char_digit(c: char) -> (r: Option<u8>)
    ensures
        r is Some <==> spec_is_digit(c),
        r matches Some(d) ==> d == spec_digit_val(c) && d <= 9,
{
    if c >= '0' && c <= '9' {
        Some((c as u8) - 48)
    } else {
        None
    }
}

/// The number written by the two digits at `i` and `i + 1`.
pub open spec fn spec_two_digits(s: Seq<char>, i: int) -> int {
    spec_digit_val(s[i]) * 10 + spec_digit_val(s[i + 1])
}

/// The number written by the four digits starting at `i`.
pub open spec fn spec_four_digits(s: Seq<char>, i: int) -> int {
    spec_digit_val(s[i]) * 1000 + spec_digit_val(s[i + 1]) * 100 + spec_digit_val(s[i + 2]) * 10
        + spec_digit_val(s[i + 3])
}

/// Reads the two-digit number at position `i`.
fn read_two_digits(s: &str, i: usize) -> (r: Option<u8>)
    requires
        i + 2 <= s@.len(),
        s@.len() <= usize::MAX,
    ensures
        r is Some <==> spec_is_digit(s@[i as int]) && spec_is_digit(s@[i + 1]),
        r matches Some(v) ==> v == spec_two_digits(s@, i as int),
{
    let c0 = char_digit(s.get_char(i));
    let c1 = char_digit(s.get_char(i + 1));
    match (c0, c1) {
        (Some(a), Some(b)) => Some(a * 10 + b),
        _ => None,
    }
}

/// Reads the four-digit number at position `i`.
fn read_four_digits(s: &str, i: usize) -> (r: Option<u16>)
    requires
        i + 4 <= s@.len(),
        s@.len() <= usize::MAX,
    ensures
        r is Some <==> spec_is_digit(s@[i as int]) && spec_is_digit(s@[i + 1])
            && spec_is_digit(s@[i + 2]) && spec_is_digit(s@[i + 3]),
        r matches Some(v) ==> v == spec_four_digits(s@, i as int),
{
    let c0 = char_digit(s.get_char(i));
    let c1 = char_digit(s.get_char(i + 1));
    let c2 = char_digit(s.get_char(i + 2));
    let c3 = char_digit(s.get_char(i + 3));
    match (c0, c1, c2, c3) {
        (Some(a), Some(b), Some(c), Some(d)) => Some(
            (a as u16) * 1000 + (b as u16) * 100 + (c as u16) * 10 + (d as u16),
        ),
        _ => None,
    }
}

/// The calendar fields written in `s`, with the date at 0, the hour at
/// position `h` and so on; shared by both accepted layouts.
pub open spec fn spec_fields_of(s: Seq<char>, h: int) -> CivilDateTime {
    CivilDateTime {
        year: spec_four_digits(s, 0) as u16,
        month: spec_two_digits(s, 5) as u8,
        day: spec_two_digits(s, 8) as u8,
        hour: spec_two_digits(s, h) as u8,
        minute: spec_two_digits(s, h + 3) as u8,
        second: spec_two_digits(s, h + 6) as u8,
    }
}

/// Whether `s` is laid out as `YYYY-MM-DD HH:MM:SS +HHMM`.
pub open spec fn offset_ts_format_ok(s: Seq<char>) -> bool {
    &&& s.len() == 25
    &&& spec_is_digit(s[0]) && spec_is_digit(s[1]) && spec_is_digit(s[2]) && spec_is_digit(s[3])
    &&& s[4] == '-'
    &&& spec_is_digit(s[5]) && spec_is_digit(s[6])
    &&& s[7] == '-'
    &&& spec_is_digit(s[8]) && spec_is_digit(s[9])
    &&& s[10] == ' '
    &&& spec_is_digit(s[11]) && spec_is_digit(s[12])
    &&& s[13] == ':'
    &&& spec_is_digit(s[14]) && spec_is_digit(s[15])
    &&& s[16] == ':'
    &&& spec_is_digit(s[17]) && spec_is_digit(s[18])
    &&& s[19] == ' '
    &&& (s[20] == '+' || s[20] == '-')
    &&& spec_is_digit(s[21]) && spec_is_digit(s[22]) && spec_is_digit(s[23]) && spec_is_digit(
        s[24],
    )
}

/// The zone offset written in `s`, in minutes east of UTC.
pub open spec fn spec_offset_ts_offset(s: Seq<char>) -> int {
    if s[20] == '-' {
        -(spec_two_digits(s, 21) * 60 + spec_two_digits(s, 23))
    } else {
        spec_two_digits(s, 21) * 60 + spec_two_digits(s, 23)
    }
}

/// A well-formed `YYYY-MM-DD HH:MM:SS +HHMM` timestamp: the layout holds, the
/// calendar fields name an existing date and time, and the offset is less
/// than a whole day.
pub open spec fn offset_ts_valid(s: Seq<char>) -> bool {
    &&& offset_ts_format_ok(s)
    &&& spec_fields_of(s, 11).wf()
    &&& spec_two_digits(s, 21) < 24
    &&& spec_two_digits(s, 23) < 60
}

/// Checks that the character at `i` is `c`.
fn expect_char(s: &str, i: usize, c: char) -> (r: bool)
    requires
        i < s@.len(),
    ensures
        r == (s@[i as int] == c),
{
    s.get_char(i) == c
}

/// Parses `YYYY-MM-DD HH:MM:SS +HHMM`, yielding the calendar fields and the
/// zone offset in minutes, exactly on the well-formed timestamps.
pub fn parse_offset_timestamp(s: &str) -> (r: Option<(CivilDateTime, i32)>)
    ensures
        r is Some <==> offset_ts_valid(s@),
        r matches Some((dt, off)) ==> dt == spec_fields_of(s@, 11) && dt.wf()
            && off == spec_offset_ts_offset(s@) && -1440 < off < 1440,
{
    if s.unicode_len() != 25 {
        return None;
    }
    let year = match read_four_digits(s, 0) {
        Some(v) => v,
        None => { return None; },
    };
    if !expect_char(s, 4, '-') {
        return None;
    }
    let month = match read_two_digits(s, 5) {
        Some(v) => v,
        None => { return None; },
    };
    if !expect_char(s, 7, '-') {
        return None;
    }
    let day = match read_two_digits(s, 8) {
        Some(v) => v,
        None => { return None; },
    };
    if !expect_char(s, 10, ' ') {
        return None;
    }
    let hour = match read_two_digits(s, 11) {
        Some(v) => v,
        None => { return None; },
    };
    if !expect_char(s, 13, ':') {
        return None;
    }
    let minute = match read_two_digits(s, 14) {
        Some(v) => v,
        None => { return None; },
    };
    if !expect_char(s, 16, ':') {
        return None;
    }
    let second = match read_two_digits(s, 17) {
        Some(v) => v,
        None => { return None; },
    };
    if !expect_char(s, 19, ' ') {
        return None;
    }
    let sign_char = s.get_char(20);
    if sign_char != '+' && sign_char != '-' {
        return None;
    }
    let off_h = match read_two_digits(s, 21) {
        Some(v) => v,
        None => { return None; },
    };
    let off_m = match read_two_digits(s, 23) {
        Some(v) => v,
        None => { return None; },
    };
    let dt = CivilDateTime { year, month, day, hour, minute, second };
    if !(1 <= month && month <= 12) {
        return None;
    }
    if !(1 <= day && day <= days_in_month(year, month)) {
        return None;
    }
    if !(hour < 24 && minute < 60 && second < 60) {
        return None;
    }
    if !(off_h < 24 && off_m < 60) {
        return None;
    }
    let magnitude: i32 = (off_h as i32) * 60 + (off_m as i32);
    let off: i32 = if sign_char == '-' {
        -magnitude
    } else {
        magnitude
    };
    Some((dt, off))
}

/// The character that writes the decimal digit `d`.
pub open spec fn spec_digit_char(d: int) -> char {
    if d == 0 {
        '0'
    } else if d == 1 {
        '1'
    } else if d == 2 {
        '2'
    } else if d == 3 {
        '3'
    } else if d == 4 {
        '4'
    } else if d == 5 {
        '5'
    } else if d == 6 {
        '6'
    } else if d == 7 {
        '7'
    } else if d == 8 {
        '8'
    } else {
        '9'
    }
}

/// `v` written as two decimal digits.
pub open spec fn spec_two_chars(v: int) -> Seq<char> {
    seq![spec_digit_char(v / 10), spec_digit_char(v % 10)]
}

/// The RFC 3339 UTC rendering `YYYY-MM-DDTHH:MM:SS+00:00` of a timestamp.
pub open spec fn spec_render_rfc3339_utc(dt: CivilDateTime) -> Seq<char> {
    let y = dt.year as int;
    spec_two_chars(y / 100) + spec_two_chars(y % 100) + seq!['-'] + spec_two_chars(
        dt.month as int,
    ) + seq!['-'] + spec_two_chars(dt.day as int) + seq!['T'] + spec_two_chars(dt.hour as int)
        + seq![':'] + spec_two_chars(dt.minute as int) + seq![':'] + spec_two_chars(
        dt.second as int,
    ) + seq!['+', '0', '0', ':', '0', '0']
}

/// The string that writes the decimal digit `d`.
pub(crate) fn digit_str(d: u8) -> (r: &'static str)
    requires
        d <= 9,
    ensures
        r@ == seq![spec_digit_char(d as int)],
{
    let r: &'static str = match d {
        0 => "0",
        1 => "1",
        2 => "2",
        3 => "3",
        4 => "4",
        5 => "5",
        6 => "6",
        7 => "7",
        8 => "8",
        _ => "9",
    };
    proof {
        reveal_strlit("0");
        reveal_strlit("1");
        reveal_strlit("2");
        reveal_strlit("3");
        reveal_strlit("4");
        reveal_strlit("5");
        reveal_strlit("6");
        reveal_strlit("7");
        reveal_strlit("8");
        reveal_strlit("9");
        assert(r@ =~= seq![spec_digit_char(d as int)]);
    }
    r
}

/// Appends `v` as two decimal digits.
fn push_two_digits(out: &mut String, v: u8)
    requires
        v < 100,
    ensures
        final(out)@ == old(out)@ + spec_two_chars(v as int),
{
    out.append(digit_str(v / 10));
    out.append(digit_str(v % 10));
    proof {
        assert(out@ =~= old(out)@ + spec_two_chars(v as int));
    }
}

/// Appends one known character.
fn push_lit(out: &mut String, lit: &str, c: char)
    requires
        lit@ == seq![c],
    ensures
        final(out)@ == old(out)@ + seq![c],
{
    out.append(lit);
}

/// Renders a timestamp as RFC 3339 in UTC, `YYYY-MM-DDTHH:MM:SS+00:00`.
pub fn render_rfc3339_utc(dt: &CivilDateTime) -> (r: String)
    requires
        dt.wf(),
    ensures
        r@ == spec_render_rfc3339_utc(*dt),
{
    proof {
        reveal_strlit("-");
        reveal_strlit(":");
        reveal_strlit("T");
        reveal_strlit("+00:00");
        assert("-"@ =~= seq!['-']);
        assert(":"@ =~= seq![':']);
        assert("T"@ =~= seq!['T']);
    }
    let mut out = String::new();
    push_two_digits(&mut out, (dt.year / 100) as u8);
    push_two_digits(&mut out, (dt.year % 100) as u8);
    push_lit(&mut out, "-", '-');
    push_two_digits(&mut out, dt.month);
    push_lit(&mut out, "-", '-');
    push_two_digits(&mut out, dt.day);
    push_lit(&mut out, "T", 'T');
    push_two_digits(&mut out, dt.hour);
    push_lit(&mut out, ":", ':');
    push_two_digits(&mut out, dt.minute);
    push_lit(&mut out, ":", ':');
    push_two_digits(&mut out, dt.second);
    proof {
        assert("+00:00"@ =~= seq!['+', '0', '0', ':', '0', '0']);
    }
    out.append("+00:00");
    proof {
        assert(out@ =~= spec_render_rfc3339_utc(*dt));
    }
    out
}

/// What normalization makes of an input string: a well-formed
/// `YYYY-MM-DD HH:MM:SS +HHMM` timestamp becomes its RFC 3339 UTC rendering;
/// anything else passes through unchanged, as does a timestamp whose UTC
/// equivalent would leave the supported year range.
pub open spec fn spec_normalize_date(s: Seq<char>) -> Seq<char> {
    if offset_ts_valid(s) && spec_utc_shift(spec_fields_of(s, 11), spec_offset_ts_offset(s))
        is Some {
        spec_render_rfc3339_utc(
            spec_utc_shift(spec_fields_of(s, 11), spec_offset_ts_offset(s))->Some_0,
        )
    } else {
        s
    }
}

/// Normalizes a timestamp to RFC 3339 in UTC; any string not in the accepted
/// zoned layout passes through unchanged. Whenever the input was normalized,
/// the output is a well-formed RFC 3339 timestamp at offset zero.
pub fn normalize_date(s: &str) -> (r: String)
    ensures
        r@ == spec_normalize_date(s@),
        offset_ts_valid(s@) && spec_utc_shift(spec_fields_of(s@, 11), spec_offset_ts_offset(s@))
            is Some ==> rfc3339_valid(r@) && spec_rfc3339_offset(r@) == 0,
{
    match parse_offset_timestamp(s) {
        Some((dt, off)) => match utc_shift(&dt, off) {
            Some(u) => {
                proof {
                    lemma_render_parses_back(u);
                }
                render_rfc3339_utc(&u)
            },
            None => s.to_owned(),
        },
        None => s.to_owned(),
    }
}

/// Whether `s` is laid out as an RFC 3339 timestamp with second precision:
/// `YYYY-MM-DDTHH:MM:SS` followed by `Z` or by a `+HH:MM` zone offset.
pub open spec fn rfc3339_format_ok(s: Seq<char>) -> bool {
    &&& (s.len() == 20 || s.len() == 25)
    &&& spec_is_digit(s[0]) && spec_is_digit(s[1]) && spec_is_digit(s[2]) && spec_is_digit(s[3])
    &&& s[4] == '-'
    &&& spec_is_digit(s[5]) && spec_is_digit(s[6])
    &&& s[7] == '-'
    &&& spec_is_digit(s[8]) && spec_is_digit(s[9])
    &&& s[10] == 'T'
    &&& spec_is_digit(s[11]) && spec_is_digit(s[12])
    &&& s[13] == ':'
    &&& spec_is_digit(s[14]) && spec_is_digit(s[15])
    &&& s[16] == ':'
    &&& spec_is_digit(s[17]) && spec_is_digit(s[18])
    &&& (s.len() == 20 ==> s[19] == 'Z')
    &&& (s.len() == 25 ==> {
        &&& (s[19] == '+' || s[19] == '-')
        &&& spec_is_digit(s[20]) && spec_is_digit(s[21])
        &&& s[22] == ':'
        &&& spec_is_digit(s[23]) && spec_is_digit(s[24])
    })
}

/// The zone offset of an RFC 3339 timestamp, in minutes east of UTC.
pub open spec fn spec_rfc3339_offset(s: Seq<char>) -> int {
    if s.len() == 20 {
        0
    } else if s[19] == '-' {
        -(spec_two_digits(s, 20) * 60 + spec_two_digits(s, 23))
    } else {
        spec_two_digits(s, 20) * 60 + spec_two_digits(s, 23)
    }
}

/// A well-formed RFC 3339 timestamp with an existing date and a zone offset
/// below a whole day.
pub open spec fn rfc3339_valid(s: Seq<char>) -> bool {
    &&& rfc3339_format_ok(s)
    &&& spec_fields_of(s, 11).wf()
    &&& (s.len() == 25 ==> spec_two_digits(s, 20) < 24 && spec_two_digits(s, 23) < 60)
}

/// Parses an RFC 3339 timestamp with second precision, yielding the calendar
/// fields and the zone offset in minutes; exact on the well-formed inputs.
pub fn parse_rfc3339(s: &str) -> (r: Option<(CivilDateTime, i32)>)
    ensures
        r is Some <==> rfc3339_valid(s@),
        r matches Some((dt, off)) ==> dt == spec_fields_of(s@, 11) && dt.wf()
            && off == spec_rfc3339_offset(s@) && -1440 < off < 1440,
{
    let n = s.unicode_len();
    if n != 20 && n != 25 {
        return None;
    }
    let year = match read_four_digits(s, 0) {
        Some(v) => v,
        None => { return None; },
    };
    if !expect_char(s, 4, '-') {
        return None;
    }
    let month = match read_two_digits(s, 5) {
        Some(v) => v,
        None => { return None; },
    };
    if !expect_char(s, 7, '-') {
        return None;
    }
    let day = match read_two_digits(s, 8) {
        Some(v) => v,
        None => { return None; },
    };
    if !expect_char(s, 10, 'T') {
        return None;
    }
    let hour = match read_two_digits(s, 11) {
        Some(v) => v,
        None => { return None; },
    };
    if !expect_char(s, 13, ':') {
        return None;
    }
    let minute = match read_two_digits(s, 14) {
        Some(v) => v,
        None => { return None; },
    };
    if !expect_char(s, 16, ':') {
        return None;
    }
    let second = match read_two_digits(s, 17) {
        Some(v) => v,
        None => { return None; },
    };
    let off: i32 = if n == 20 {
        if !expect_char(s, 19, 'Z') {
            return None;
        }
        0
    } else {
        let sign_char = s.get_char(19);
        if sign_char != '+' && sign_char != '-' {
            return None;
        }
        let off_h = match read_two_digits(s, 20) {
            Some(v) => v,
            None => { return None; },
        };
        if !expect_char(s, 22, ':') {
            return None;
        }
        let off_m = match read_two_digits(s, 23) {
            Some(v) => v,
            None => { return None; },
        };
        if !(off_h < 24 && off_m < 60) {
            return None;
        }
        let magnitude: i32 = (off_h as i32) * 60 + (off_m as i32);
        if sign_char == '-' {
            -magnitude
        } else {
            magnitude
        }
    };
    let dt = CivilDateTime { year, month, day, hour, minute, second };
    if !(1 <= month && month <= 12) {
        return None;
    }
    if !(1 <= day && day <= days_in_month(year, month)) {
        return None;
    }
    if !(hour < 24 && minute < 60 && second < 60) {
        return None;
    }
    Some((dt, off))
}

/// The instant an RFC 3339 timestamp names, as seconds from
/// 0000-01-01 00:00:00 UTC, or `None` if the string is not well-formed.
pub fn rfc3339_instant_seconds(s: &str) -> (r: Option<i64>)
    ensures
        r is Some <==> rfc3339_valid(s@),
        r matches Some(v) ==> v == spec_fields_of(s@, 11).epoch_seconds() - spec_rfc3339_offset(
            s@,
        ) * 60 && -100000 < v < 320000000000,
{
    match parse_rfc3339(s) {
        Some((dt, off)) => {
            proof {
                lemma_epoch_days_bounded(dt);
            }
            let days = epoch_days(&dt);
            let minutes: i64 = (days as i64) * 1440 + (dt.hour as i64) * 60 + (dt.minute as i64);
            Some(minutes * 60 + (dt.second as i64) - (off as i64) * 60)
        },
        None => None,
    }
}

/// The day number never exceeds the count of days in ten thousand years.
pub proof fn lemma_epoch_days_bounded(dt: CivilDateTime)
    requires
        dt.wf(),
    ensures
        0 <= spec_epoch_days(dt.year as int, dt.month as int, dt.day as int) < 3660100,
{
    lemma_days_before_year_bounds(dt.year as int);
    lemma_days_before_month_bounds(dt.year as int, dt.month as int);
}

/// Days before a year grow by at most 366 a year.
proof fn lemma_days_before_year_bounds(y: int)
    requires
        0 <= y <= 9999,
    ensures
        365 * y <= spec_days_before_year(y) <= 366 * y,
    decreases y,
{
    if y > 0 {
        lemma_days_before_year_bounds(y - 1);
    }
}

/// Days before a month stay below a year's length.
proof fn lemma_days_before_month_bounds(y: int, m: int)
    requires
        1 <= m <= 12,
    ensures
        0 <= spec_days_before_month(y, m) <= 31 * (m - 1),
    decreases m,
{
    if m > 1 {
        lemma_days_before_month_bounds(y, m - 1);
    }
}

/// Computes the day number of a date.
pub fn epoch_days(dt: &CivilDateTime) -> (r: u32)
    requires
        dt.wf(),
    ensures
        r == spec_epoch_days(dt.year as int, dt.month as int, dt.day as int),
{
    proof {
        lemma_epoch_days_bounded(*dt);
    }
    let mut days: u32 = 0;
    let mut y: u16 = 0;
    while y < dt.year
        invariant
            y <= dt.year,
            dt.wf(),
            days == spec_days_before_year(y as int),
            days <= 366 * (y as int),
        decreases dt.year - y,
    {
        proof {
            lemma_days_before_year_bounds(y as int + 1);
        }
        days = days + if is_leap_year(y) {
            366
        } else {
            365
        };
        y = y + 1;
    }
    let mut m: u8 = 1;
    while m < dt.month
        invariant
            1 <= m <= dt.month,
            dt.wf(),
            days == spec_days_before_year(dt.year as int) + spec_days_before_month(
                dt.year as int,
                m as int,
            ),
            days < 3660100,
        decreases dt.month - m,
    {
        proof {
            lemma_days_before_year_bounds(dt.year as int);
            lemma_days_before_month_bounds(dt.year as int, m as int + 1);
        }
        days = days + days_in_month(dt.year, m) as u32;
        m = m + 1;
    }
    days + (dt.day as u32) - 1
}

/// Digit characters read back as the digits that wrote them.
proof fn lemma_digit_char_reads_back(d: int)
    requires
        0 <= d <= 9,
    ensures
        spec_is_digit(spec_digit_char(d)),
        spec_digit_val(spec_digit_char(d)) == d,
{
}

/// The rendering laid out character by character.
proof fn lemma_render_chars(dt: CivilDateTime)
    requires
        dt.wf(),
    ensures
        spec_render_rfc3339_utc(dt) =~= seq![
            spec_digit_char(dt.year as int / 100 / 10),
            spec_digit_char(dt.year as int / 100 % 10),
            spec_digit_char(dt.year as int % 100 / 10),
            spec_digit_char(dt.year as int % 100 % 10),
            '-',
            spec_digit_char(dt.month as int / 10),
            spec_digit_char(dt.month as int % 10),
            '-',
            spec_digit_char(dt.day as int / 10),
            spec_digit_char(dt.day as int % 10),
            'T',
            spec_digit_char(dt.hour as int / 10),
            spec_digit_char(dt.hour as int % 10),
            ':',
            spec_digit_char(dt.minute as int / 10),
            spec_digit_char(dt.minute as int % 10),
            ':',
            spec_digit_char(dt.second as int / 10),
            spec_digit_char(dt.second as int % 10),
            '+',
            '0',
            '0',
            ':',
            '0',
            '0',
        ],
{
}

/// What normalization writes reads back: the rendering of a valid timestamp
/// is a well-formed RFC 3339 string, it parses to exactly the fields it was
/// written from, and it names an offset of zero — so a normalized timestamp
/// passes through a second normalization untouched and is read exactly by
/// the RFC 3339 reader.
pub proof fn lemma_render_parses_back(dt: CivilDateTime)
    requires
        dt.wf(),
    ensures
        rfc3339_valid(spec_render_rfc3339_utc(dt)),
        spec_fields_of(spec_render_rfc3339_utc(dt), 11) == dt,
        spec_rfc3339_offset(spec_render_rfc3339_utc(dt)) == 0,
{
    lemma_render_chars(dt);
    let s = spec_render_rfc3339_utc(dt);
    let y = dt.year as int;
    assert forall|d: int| 0 <= d <= 9 implies spec_is_digit(#[trigger] spec_digit_char(d))
        && spec_digit_val(spec_digit_char(d)) == d by {
        lemma_digit_char_reads_back(d);
    }
    assert(spec_four_digits(s, 0) == (y / 100 / 10) * 1000 + (y / 100 % 10) * 100 + (y % 100
        / 10) * 10 + (y % 100 % 10));
    assert((y / 100 / 10) * 1000 + (y / 100 % 10) * 100 == 100 * (y / 100));
    assert((y % 100 / 10) * 10 + (y % 100 % 10) == y % 100);
    assert(spec_four_digits(s, 0) == y);
    assert(spec_two_digits(s, 5) == (dt.month as int / 10) * 10 + dt.month as int % 10);
    assert(spec_two_digits(s, 8) == (dt.day as int / 10) * 10 + dt.day as int % 10);
    assert(spec_two_digits(s, 11) == (dt.hour as int / 10) * 10 + dt.hour as int % 10);
    assert(spec_two_digits(s, 14) == (dt.minute as int / 10) * 10 + dt.minute as int % 10);
    assert(spec_two_digits(s, 17) == (dt.second as int / 10) * 10 + dt.second as int % 10);
    assert(spec_fields_of(s, 11) == dt);
    assert(spec_two_digits(s, 20) == 0);
    assert(spec_two_digits(s, 23) == 0);
}

/// Normalizing twice changes nothing more: a normalized timestamp is RFC
/// 3339, which the zoned layout does not match, so it passes through.
pub proof fn lemma_normalize_idempotent(s: Seq<char>)
    ensures
        spec_normalize_date(spec_normalize_date(s)) == spec_normalize_date(s),
{
    if offset_ts_valid(s) && spec_utc_shift(spec_fields_of(s, 11), spec_offset_ts_offset(s))
        is Some {
        let dt = spec_fields_of(s, 11);
        let off = spec_offset_ts_offset(s);
        lemma_utc_shift_preserves_instant(dt, off);
        let u = spec_utc_shift(dt, off)->0;
        lemma_render_chars(u);
        let r = spec_render_rfc3339_utc(u);
        assert(r[10] == 'T');
        assert(!offset_ts_format_ok(r));
        assert(spec_normalize_date(r) == r);
    }
}

} // verus!
