use vstd::prelude::*;

verus! {

/// Earliest year a stored instant may carry.
pub const MIN_YEAR: i32 = -999_999;

/// Latest year a stored instant may carry.
pub const MAX_YEAR: i32 = 999_999;

/// A calendar date, as the store's time zone reads it.
#[derive(Clone, Copy, Debug, PartialEq, Eq, Structural)]
pub struct CivilDate {
    pub year: i32,
    pub month: u8,
    pub day: u8,
}

/// An instant, as its calendar date and time of day in the store's time zone.
#[derive(Clone, Copy, Debug, PartialEq, Eq, Structural)]
pub struct Timestamp {
    pub date: CivilDate,
    pub hour: u8,
    pub minute: u8,
    pub second: u8,
    pub nanosecond: u32,
}

pub open spec fn is_leap_year(y: int) -> bool {
    (y % 4 == 0 && y % 100 != 0) || y % 400 == 0
}

pub open spec fn days_in_month(y: int, m: int) -> int {
    if m == 2 {
        if is_leap_year(y) { 29 } else { 28 }
    } else if m == 4 || m == 6 || m == 9 || m == 11 {
        30
    } else {
        31
    }
}

impl CivilDate {
    /// A real calendar date within the supported years.
    pub open spec fn wf(self) -> bool {
        &&& MIN_YEAR <= self.year <= MAX_YEAR
        &&& 1 <= self.month <= 12
        &&& 1 <= self.day <= days_in_month(self.year as int, self.month as int)
    }

    /// Dates ordered as integers: a later date has a larger key.
    pub open spec fn key(self) -> int {
        self.year * 512 + self.month * 32 + self.day
    }
}

impl Timestamp {
    pub open spec fn wf(self) -> bool {
        &&& self.date.wf()
        &&& self.hour < 24
        &&& self.minute < 60
        &&& self.second < 60
        &&& self.nanosecond < 1_000_000_000
    }

    /// Fields within the ranges that keep `key` ordered like the fields themselves.
    pub open spec fn bounded(self) -> bool {
        &&& 1 <= self.date.month <= 12
        &&& 1 <= self.date.day <= 31
        &&& self.hour < 24
        &&& self.minute < 60
        &&& self.second < 60
        &&& self.nanosecond < 1_000_000_000
    }

    /// Position of the instant on the time line; the order of instants is the order of keys.
    pub open spec fn key(self) -> int {
        self.date.key() * 86_400_000_000_000 + self.hour * 3_600_000_000_000 + self.minute
            * 60_000_000_000 + self.second * 1_000_000_000 + self.nanosecond
    }

    /// Whether this instant comes no later than `other`.
    pub fn not_after(&self, other: &Timestamp) -> (r: bool)
        requires
            self.bounded(),
            other.bounded(),
        ensures
            r == (self.key() <= other.key()),
    {
        let a = self;
        let b = other;
        if a.date.year != b.date.year {
            a.date.year < b.date.year
        } else if a.date.month != b.date.month {
            a.date.month < b.date.month
        } else if a.date.day != b.date.day {
            a.date.day < b.date.day
        } else if a.hour != b.hour {
            a.hour < b.hour
        } else if a.minute != b.minute {
            a.minute < b.minute
        } else if a.second != b.second {
            a.second < b.second
        } else {
            a.nanosecond <= b.nanosecond
        }
    }
}

/// The day before `d` on the calendar.
pub open spec fn day_before(d: CivilDate) -> CivilDate {
    if d.day > 1 {
        CivilDate { year: d.year, month: d.month, day: (d.day - 1) as u8 }
    } else if d.month > 1 {
        CivilDate {
            year: d.year,
            month: (d.month - 1) as u8,
            day: days_in_month(d.year as int, d.month - 1) as u8,
        }
    } else {
        CivilDate { year: (d.year - 1) as i32, month: 12, day: 31 }
    }
}

/// The day after `d` on the calendar.
pub open spec fn day_after(d: CivilDate) -> CivilDate {
    if d.day < days_in_month(d.year as int, d.month as int) {
        CivilDate { year: d.year, month: d.month, day: (d.day + 1) as u8 }
    } else if d.month < 12 {
        CivilDate { year: d.year, month: (d.month + 1) as u8, day: 1 }
    } else {
        CivilDate { year: (d.year + 1) as i32, month: 1, day: 1 }
    }
}

/// The first instant of day `d`.
pub open spec fn midnight(d: CivilDate) -> Timestamp {
    Timestamp { date: d, hour: 0, minute: 0, second: 0, nanosecond: 0 }
}

pub fn is_leap(y: i32) -> (r: bool)
    ensures
        r == is_leap_year(y as int),
{
    (y % 4 == 0 && y % 100 != 0) || y % 400 == 0
}

pub fn month_length(y: i32, m: u8) -> (r: u8)
    ensures
        r as int == days_in_month(y as int, m as int),
{
    if m == 2 {
        if is_leap(y) { 29 } else { 28 }
    } else if m == 4 || m == 6 || m == 9 || m == 11 {
        30
    } else {
        31
    }
}

/// The calendar day before `d`.
pub fn previous_day(d: CivilDate) -> (r: CivilDate)
    requires
        d.wf(),
    ensures
        r == day_before(d),
        r.year >= MIN_YEAR - 1,
        1 <= r.month <= 12,
        1 <= r.day <= days_in_month(r.year as int, r.month as int),
        day_after(r) == d,
{
    if d.day > 1 {
        CivilDate { year: d.year, month: d.month, day: d.day - 1 }
    } else if d.month > 1 {
        let m = d.month - 1;
        CivilDate { year: d.year, month: m, day: month_length(d.year, m) }
    } else {
        CivilDate { year: d.year - 1, month: 12, day: 31 }
    }
}

/// The calendar day after `d`.
pub fn next_day(d: CivilDate) -> (r: CivilDate)
    requires
        d.wf(),
    ensures
        r == day_after(d),
{
    if d.day < month_length(d.year, d.month) {
        CivilDate { year: d.year, month: d.month, day: d.day + 1 }
    } else if d.month < 12 {
        CivilDate { year: d.year, month: d.month + 1, day: 1 }
    } else {
        CivilDate { year: d.year + 1, month: 1, day: 1 }
    }
}

/// The first instant of day `d`.
pub fn start_of_day(d: CivilDate) -> (r: Timestamp)
    ensures
        r == midnight(d),
{
    Timestamp { date: d, hour: 0, minute: 0, second: 0, nanosecond: 0 }
}

pub open spec fn is_digit(c: char) -> bool {
    '0' <= c <= '9'
}

pub open spec fn digit_value(c: char) -> int {
    c as int - '0' as int
}

/// The date that `s` writes as `YYYY-MM-DD`, if it writes a real one.
pub open spec fn date_of_text(s: Seq<char>) -> Option<CivilDate> {
    if s.len() == 10 && is_digit(s[0]) && is_digit(s[1]) && is_digit(s[2]) && is_digit(s[3])
        && s[4] == '-' && is_digit(s[5]) && is_digit(s[6]) && s[7] == '-' && is_digit(s[8])
        && is_digit(s[9]) {
        let y = digit_value(s[0]) * 1000 + digit_value(s[1]) * 100 + digit_value(s[2]) * 10
            + digit_value(s[3]);
        let m = digit_value(s[5]) * 10 + digit_value(s[6]);
        let d = digit_value(s[8]) * 10 + digit_value(s[9]);
        if 1 <= m <= 12 && 1 <= d <= days_in_month(y, m) {
            Some(CivilDate { year: y as i32, month: m as u8, day: d as u8 })
        } else {
            None
        }
    } else {
        None
    }
}

/// The value of one decimal digit, if `c` is one.
fn digit_at(s: &str, i: usize) -> (r: Option<u8>)
    requires
        i < s@.len(),
    ensures
        is_digit(s@[i as int]) ==> r == Some(digit_value(s@[i as int]) as u8),
        !is_digit(s@[i as int]) ==> r is None,
{
    let c = s.get_char(i);
    if '0' <= c && c <= '9' {
        Some(((c as u32) - ('0' as u32)) as u8)
    } else {
        None
    }
}

/// Reads a calendar date written as `YYYY-MM-DD`.
pub fn parse_date(s: &str) -> (r: Option<CivilDate>)
    ensures
        r == date_of_text(s@),
        r matches Some(d) ==> d.wf(),
{
    if s.unicode_len() != 10 {
        return None;
    }
    if s.get_char(4) != '-' || s.get_char(7) != '-' {
        return None;
    }
    let (y0, y1, y2, y3) = match (digit_at(s, 0), digit_at(s, 1), digit_at(s, 2), digit_at(s, 3)) {
        (Some(a), Some(b), Some(c), Some(d)) => (a, b, c, d),
        _ => {
            return None;
        },
    };
    let (m0, m1) = match (digit_at(s, 5), digit_at(s, 6)) {
        (Some(a), Some(b)) => (a, b),
        _ => {
            return None;
        },
    };
    let (d0, d1) = match (digit_at(s, 8), digit_at(s, 9)) {
        (Some(a), Some(b)) => (a, b),
        _ => {
            return None;
        },
    };
    let year: i32 = (y0 as i32) * 1000 + (y1 as i32) * 100 + (y2 as i32) * 10 + (y3 as i32);
    let month: u8 = m0 * 10 + m1;
    let day: u8 = d0 * 10 + d1;
    if month < 1 || month > 12 {
        return None;
    }
    if day < 1 || day > month_length(year, month) {
        return None;
    }
    Some(CivilDate { year, month, day })
}

/// Two decimal digits of a value below one hundred.
pub open spec fn two_digits(v: int) -> Seq<char> {
    seq![('0' as int + v / 10) as char, ('0' as int + v % 10) as char]
}

/// `HH:MM`, zero-padded.
pub open spec fn clock_text(h: int, m: int) -> Seq<char> {
    two_digits(h) + seq![':'] + two_digits(m)
}

fn digit_text(d: u8) -> (r: &'static str)
    requires
        d < 10,
    ensures
        r@ == seq![('0' as int + d) as char],
{
    proof {
        reveal_strlit("0");
        reveal_strlit("1");
        reveal_strlit("2");
        reveal_strlit("3");
        reveal_strlit("4");
        reveal_strlit("5");
        reveal_strlit("6");
        reveal_strlit("7");
        reveal_strlit("8");
        reveal_strlit("9");
    }
    let r = match d {
        0 => "0",
        1 => "1",
        2 => "2",
        3 => "3",
        4 => "4",
        5 => "5",
        6 => "6",
        7 => "7",
        8 => "8",
        _ => "9",
    };
    assert(r@ =~= seq![('0' as int + d) as char]);
    r
}

/// Renders an hour and a minute as `HH:MM`.
pub fn format_clock(h: u8, m: u8) -> (r: String)
    requires
        h < 100,
        m < 100,
    ensures
        r@ == clock_text(h as int, m as int),
{
    proof {
        reveal_strlit(":");
    }
    let r = String::from_str(digit_text(h / 10));
    let r = r.concat(digit_text(h % 10));
    let r = r.concat(":");
    let r = r.concat(digit_text(m / 10));
    let r = r.concat(digit_text(m % 10));
    assert(r@ =~= clock_text(h as int, m as int));
    r
}

} // verus!
