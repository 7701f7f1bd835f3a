//! Calendar dates in the proleptic Gregorian calendar, years 0 through 9999,
//! with a day-number model: every valid date maps to the count of days since
//! 0000-01-01, and period arithmetic is done on day numbers.
use vstd::prelude::*;
use vstd::string::StrSliceExecFns;
use vstd::string::StringExecFns;

verus! {

/// A calendar date. Valid dates satisfy `date_valid`.
#[derive(Clone, Copy, PartialEq, Eq, Structural, Debug)]
pub struct Date {
    pub year: u32,
    pub month: u32,
    pub day: u32,
}

pub open spec fn is_leap_year(y: int) -> bool {
    (y % 4 == 0 && y % 100 != 0) || y % 400 == 0
}

pub open spec fn days_in_month(y: int, m: int) -> int {
    if m == 2 {
        if is_leap_year(y) {
            29
        } else {
            28
        }
    } else if m == 4 || m == 6 || m == 9 || m == 11 {
        30
    } else {
        31
    }
}

pub open spec fn days_in_year(y: int) -> int {
    if is_leap_year(y) {
        366
    } else {
        365
    }
}

pub open spec fn valid_ymd(y: int, m: int, d: int) -> bool {
    &&& 0 <= y <= 9999
    &&& 1 <= m <= 12
    &&& 1 <= d <= days_in_month(y, m)
}

pub open spec fn date_valid(d: Date) -> bool {
    valid_ymd(d.year as int, d.month as int, d.day as int)
}

/// Days in all years before year `y`, counting from year 0.
pub open spec fn days_before_year(y: int) -> int
    decreases y,
{
    if y <= 0 {
        0
    } else {
        days_before_year(y - 1) + days_in_year(y - 1)
    }
}

/// Days in the months of year `y` before month `m`.
pub open spec fn days_before_month(y: int, m: int) -> int
    decreases m,
{
    if m <= 1 {
        0
    } else {
        days_before_month(y, m - 1) + days_in_month(y, m - 1)
    }
}

/// The day number of a date: days elapsed since 0000-01-01.
pub open spec fn day_number(d: Date) -> int {
    days_before_year(d.year as int) + days_before_month(d.year as int, d.month as int) + d.day - 1
}

pub proof fn lemma_days_before_year_bound(y: int)
    requires
        0 <= y,
    ensures
        365 * y <= days_before_year(y) <= 366 * y,
    decreases y,
{
    if y > 0 {
        lemma_days_before_year_bound(y - 1);
    }
}

pub proof fn lemma_days_before_year_mono(y1: int, y2: int)
    requires
        y1 <= y2,
    ensures
        days_before_year(y1) <= days_before_year(y2),
    decreases y2 - y1,
{
    if y1 < y2 {
        lemma_days_before_year_mono(y1, y2 - 1);
    }
}

pub proof fn lemma_days_before_month_bound(y: int, m: int)
    requires
        1 <= m <= 13,
    ensures
        28 * (m - 1) <= days_before_month(y, m) <= 31 * (m - 1),
    decreases m,
{
    if m > 1 {
        lemma_days_before_month_bound(y, m - 1);
    }
}

/// The twelve months of a year together hold `days_in_year` days.
pub proof fn lemma_months_fill_year(y: int)
    ensures
        days_before_month(y, 13) == days_in_year(y),
{
    reveal_with_fuel(days_before_month, 14);
}

/// A valid date's day number lies inside the days of its own year.
pub proof fn lemma_day_number_in_year(d: Date)
    requires
        date_valid(d),
    ensures
        days_before_year(d.year as int) <= day_number(d) < days_before_year(d.year as int + 1),
        0 <= day_number(d) < 3660000,
{
    let y = d.year as int;
    let m = d.month as int;
    lemma_days_before_month_bound(y, m);
    lemma_months_fill_year(y);
    assert(days_before_month(y, m) + days_in_month(y, m) <= days_before_month(y, 13)) by {
        lemma_days_before_month_mono(y, m + 1, 13);
    }
    lemma_days_before_year_bound(y);
    lemma_days_before_year_bound(y + 1);
}

pub proof fn lemma_days_before_month_mono(y: int, m1: int, m2: int)
    requires
        m1 <= m2,
    ensures
        days_before_month(y, m1) <= days_before_month(y, m2),
    decreases m2 - m1,
{
    if m1 < m2 {
        lemma_days_before_month_mono(y, m1, m2 - 1);
    }
}

/// Day numbers respect date order within the calendar: a date strictly
/// before another (by year, then month, then day) has a smaller day number.
pub proof fn lemma_day_number_mono(a: Date, b: Date)
    requires
        date_valid(a),
        date_valid(b),
        (a.year < b.year) || (a.year == b.year && a.month < b.month) || (a.year == b.year
            && a.month == b.month && a.day < b.day),
    ensures
        day_number(a) < day_number(b),
{
    let ya = a.year as int;
    let yb = b.year as int;
    let ma = a.month as int;
    let mb = b.month as int;
    lemma_day_number_in_year(a);
    lemma_day_number_in_year(b);
    if ya < yb {
        lemma_days_before_year_mono(ya + 1, yb);
    } else if ma < mb {
        lemma_days_before_month_mono(ya, ma + 1, mb);
    }
}

pub fn leap_year(y: u32) -> (r: bool)
    ensures
        r == is_leap_year(y as int),
{
    (y % 4 == 0 && y % 100 != 0) || y % 400 == 0
}

pub fn month_days(y: u32, m: u32) -> (r: u32)
    ensures
        r == days_in_month(y as int, m as int),
{
    if m == 2 {
        if leap_year(y) {
            29
        } else {
            28
        }
    } else if m == 4 || m == 6 || m == 9 || m == 11 {
        30
    } else {
        31
    }
}

pub fn date_is_valid(d: &Date) -> (r: bool)
    ensures
        r == date_valid(*d),
{
    d.year <= 9999 && 1 <= d.month && d.month <= 12 && 1 <= d.day && d.day <= month_days(
        d.year,
        d.month,
    )
}

/// Computes the day number of a valid date.
pub fn to_day_number(d: &Date) -> (n: u64)
    requires
        date_valid(*d),
    ensures
        n == day_number(*d),
        n < 3660000,
{
    let mut acc: u64 = 0;
    let mut y: u32 = 0;
    while y < d.year
        invariant
            0 <= y <= d.year,
            d.year <= 9999,
            acc == days_before_year(y as int),
            acc <= 366 * (y as int),
        decreases d.year - y,
    {
        proof {
            lemma_days_before_year_bound(y as int);
        }
        acc = acc + if leap_year(y) {
            366
        } else {
            365
        };
        y = y + 1;
    }
    proof {
        lemma_days_before_year_bound(d.year as int);
    }
    let mut m: u32 = 1;
    while m < d.month
        invariant
            1 <= m <= d.month,
            date_valid(*d),
            acc == days_before_year(d.year as int) + days_before_month(d.year as int, m as int),
            acc <= 366 * (d.year as int) + 31 * (m as int),
        decreases d.month - m,
    {
        proof {
            lemma_days_before_month_bound(d.year as int, m as int);
        }
        acc = acc + month_days(d.year, m) as u64;
        m = m + 1;
    }
    proof {
        lemma_day_number_in_year(*d);
    }
    acc + (d.day as u64) - 1
}

/// Recovers the valid date with the given day number, or `None` when the
/// number lies past the last representable date, 9999-12-31.
pub fn from_day_number(n: u64) -> (r: Option<Date>)
    ensures
        match r {
            Some(d) => date_valid(d) && day_number(d) == n,
            None => forall|d: Date| date_valid(d) ==> day_number(d) != n,
        },
{
    let mut y: u32 = 0;
    let mut rem: u64 = n;
    loop
        invariant
            0 <= y <= 10000,
            n == days_before_year(y as int) + rem,
        ensures
            y <= 9999,
            rem < days_in_year(y as int),
            n == days_before_year(y as int) + rem,
        decreases 10000 - y,
    {
        if y == 10000 {
            // n is at least the total day count of the calendar
            proof {
                assert forall|d: Date| date_valid(d) implies day_number(d) != n by {
                    lemma_day_number_in_year(d);
                    lemma_days_before_year_mono(d.year as int + 1, 10000);
                }
            }
            return None;
        }
        let ylen: u64 = if leap_year(y) {
            366
        } else {
            365
        };
        if rem < ylen {
            break ;
        }
        rem = rem - ylen;
        y = y + 1;
    }
    // rem < days_in_year(y), y <= 9999
    let mut m: u32 = 1;
    while rem >= month_days(y, m) as u64
        invariant
            1 <= m <= 12,
            y <= 9999,
            rem < days_in_year(y as int) - days_before_month(y as int, m as int),
            n == days_before_year(y as int) + days_before_month(y as int, m as int) + rem,
        decreases 12 - m,
    {
        proof {
            lemma_months_fill_year(y as int);
            if m == 12 {
                assert(days_before_month(y as int, 13) == days_before_month(y as int, 12)
                    + days_in_month(y as int, 12));
            }
            lemma_days_before_month_mono(y as int, m as int + 1, 13);
        }
        rem = rem - month_days(y, m) as u64;
        m = m + 1;
    }
    let d = Date { year: y, month: m, day: (rem + 1) as u32 };
    Some(d)
}

// ---- The "YYYY-MM-DD" date grammar ----

/// The value of a decimal digit character, or -1 for any other character.
pub open spec fn digit_val(c: char) -> int {
    match c {
        '0' => 0,
        '1' => 1,
        '2' => 2,
        '3' => 3,
        '4' => 4,
        '5' => 5,
        '6' => 6,
        '7' => 7,
        '8' => 8,
        '9' => 9,
        _ => -1,
    }
}

pub open spec fn is_digit(c: char) -> bool {
    digit_val(c) >= 0
}

/// The decimal digit character for a value 0 through 9.
pub open spec fn digit_char(v: int) -> char {
    if v == 0 {
        '0'
    } else if v == 1 {
        '1'
    } else if v == 2 {
        '2'
    } else if v == 3 {
        '3'
    } else if v == 4 {
        '4'
    } else if v == 5 {
        '5'
    } else if v == 6 {
        '6'
    } else if v == 7 {
        '7'
    } else if v == 8 {
        '8'
    } else {
        '9'
    }
}

pub proof fn lemma_digit_char_val(c: char)
    requires
        is_digit(c),
    ensures
        digit_char(digit_val(c)) == c,
{
}

/// The canonical "YYYY-MM-DD" rendering of a date: four digit year
/// (zero padded), two digit month and day.
pub open spec fn date_to_str(d: Date) -> Seq<char> {
    let y = d.year as int;
    let m = d.month as int;
    let dd = d.day as int;
    seq![
        digit_char(y / 10 / 10 / 10),
        digit_char(y / 10 / 10 % 10),
        digit_char(y / 10 % 10),
        digit_char(y % 10),
        '-',
        digit_char(m / 10),
        digit_char(m % 10),
        '-',
        digit_char(dd / 10),
        digit_char(dd % 10),
    ]
}

/// Reads a "YYYY-MM-DD" string: exactly ten characters, zero-padded fields,
/// and a valid calendar date; anything else is rejected.
pub open spec fn str_to_date(s: Seq<char>) -> Option<Date> {
    if s.len() == 10 && is_digit(s[0]) && is_digit(s[1]) && is_digit(s[2]) && is_digit(s[3]) && s[4]
        == '-' && is_digit(s[5]) && is_digit(s[6]) && s[7] == '-' && is_digit(s[8]) && is_digit(
        s[9],
    ) {
        let y = ((digit_val(s[0]) * 10 + digit_val(s[1])) * 10 + digit_val(s[2])) * 10 + digit_val(
            s[3],
        );
        let m = digit_val(s[5]) * 10 + digit_val(s[6]);
        let dd = digit_val(s[8]) * 10 + digit_val(s[9]);
        if valid_ymd(y, m, dd) {
            Some(Date { year: y as u32, month: m as u32, day: dd as u32 })
        } else {
            None
        }
    } else {
        None
    }
}

/// Date round trip, one direction: rendering a parsed date reproduces the
/// original string, character for character.
pub proof fn lemma_parse_then_format(s: Seq<char>, d: Date)
    requires
        str_to_date(s) == Some(d),
    ensures
        date_to_str(d) == s,
{
    let a0 = digit_val(s[0]);
    let a1 = digit_val(s[1]);
    let a2 = digit_val(s[2]);
    let a3 = digit_val(s[3]);
    let b0 = digit_val(s[5]);
    let b1 = digit_val(s[6]);
    let c0 = digit_val(s[8]);
    let c1 = digit_val(s[9]);
    let y = ((a0 * 10 + a1) * 10 + a2) * 10 + a3;
    let m = b0 * 10 + b1;
    let dd = c0 * 10 + c1;
    vstd::arithmetic::div_mod::lemma_fundamental_div_mod_converse(y, 10, (a0 * 10 + a1) * 10 + a2, a3);
    vstd::arithmetic::div_mod::lemma_fundamental_div_mod_converse((a0 * 10 + a1) * 10 + a2, 10, a0 * 10 + a1, a2);
    vstd::arithmetic::div_mod::lemma_fundamental_div_mod_converse(a0 * 10 + a1, 10, a0, a1);
    vstd::arithmetic::div_mod::lemma_fundamental_div_mod_converse(m, 10, b0, b1);
    vstd::arithmetic::div_mod::lemma_fundamental_div_mod_converse(dd, 10, c0, c1);
    assert(y / 10 == (a0 * 10 + a1) * 10 + a2 && y % 10 == a3);
    assert(y / 10 / 10 == a0 * 10 + a1 && y / 10 % 10 == a2);
    assert(y / 10 / 10 / 10 == a0 && y / 10 / 10 % 10 == a1);
    lemma_digit_char_val(s[0]);
    lemma_digit_char_val(s[1]);
    lemma_digit_char_val(s[2]);
    lemma_digit_char_val(s[3]);
    lemma_digit_char_val(s[5]);
    lemma_digit_char_val(s[6]);
    lemma_digit_char_val(s[8]);
    lemma_digit_char_val(s[9]);
    assert(date_to_str(d) =~= s);
}

/// Date round trip, the other direction: a valid date's rendering parses
/// back to the same date.
pub proof fn lemma_format_then_parse(d: Date)
    requires
        date_valid(d),
    ensures
        str_to_date(date_to_str(d)) == Some(d),
{
    let s = date_to_str(d);
    let y = d.year as int;
    let m = d.month as int;
    let dd = d.day as int;
    vstd::arithmetic::div_mod::lemma_fundamental_div_mod(y, 10);
    vstd::arithmetic::div_mod::lemma_fundamental_div_mod(y / 10, 10);
    vstd::arithmetic::div_mod::lemma_fundamental_div_mod(y / 10 / 10, 10);
    vstd::arithmetic::div_mod::lemma_fundamental_div_mod(m, 10);
    vstd::arithmetic::div_mod::lemma_fundamental_div_mod(dd, 10);
    assert(0 <= y % 10 < 10 && 0 <= y / 10 % 10 < 10 && 0 <= y / 10 / 10 % 10 < 10) by {
        vstd::arithmetic::div_mod::lemma_mod_bound(y, 10);
        vstd::arithmetic::div_mod::lemma_mod_bound(y / 10, 10);
        vstd::arithmetic::div_mod::lemma_mod_bound(y / 10 / 10, 10);
    }
    assert(0 <= y / 10 / 10 / 10 <= 9);
    assert(0 <= m / 10 <= 9 && 0 <= m % 10 < 10 && 0 <= dd / 10 <= 9 && 0 <= dd % 10 < 10) by {
        vstd::arithmetic::div_mod::lemma_mod_bound(m, 10);
        vstd::arithmetic::div_mod::lemma_mod_bound(dd, 10);
    }
    assert(digit_val(digit_char(y / 10 / 10 / 10)) == y / 10 / 10 / 10);
    assert(digit_val(digit_char(y / 10 / 10 % 10)) == y / 10 / 10 % 10);
    assert(digit_val(digit_char(y / 10 % 10)) == y / 10 % 10);
    assert(digit_val(digit_char(y % 10)) == y % 10);
    assert(digit_val(digit_char(m / 10)) == m / 10);
    assert(digit_val(digit_char(m % 10)) == m % 10);
    assert(digit_val(digit_char(dd / 10)) == dd / 10);
    assert(digit_val(digit_char(dd % 10)) == dd % 10);
    let yy = ((y / 10 / 10 / 10 * 10 + y / 10 / 10 % 10) * 10 + y / 10 % 10) * 10 + y % 10;
    assert(yy == y);
    assert(str_to_date(s) == Some(d));
}

/// Reads one decimal digit character.
pub fn char_digit(c: char) -> (r: Option<u32>)
    ensures
        match r {
            Some(v) => is_digit(c) && v == digit_val(c),
            None => !is_digit(c),
        },
{
    match c {
        '0' => Some(0),
        '1' => Some(1),
        '2' => Some(2),
        '3' => Some(3),
        '4' => Some(4),
        '5' => Some(5),
        '6' => Some(6),
        '7' => Some(7),
        '8' => Some(8),
        '9' => Some(9),
        _ => None,
    }
}

/// Appends one decimal digit character for a value 0 through 9.
pub fn push_digit(s: &mut String, v: u32)
    requires
        v <= 9,
    ensures
        final(s)@ == old(s)@ + seq![digit_char(v as int)],
{
    let ds: &str = if v == 0 {
        "0"
    } else if v == 1 {
        "1"
    } else if v == 2 {
        "2"
    } else if v == 3 {
        "3"
    } else if v == 4 {
        "4"
    } else if v == 5 {
        "5"
    } else if v == 6 {
        "6"
    } else if v == 7 {
        "7"
    } else if v == 8 {
        "8"
    } else {
        "9"
    };
    proof {
        reveal_strlit("0");
        reveal_strlit("1");
        reveal_strlit("2");
        reveal_strlit("3");
        reveal_strlit("4");
        reveal_strlit("5");
        reveal_strlit("6");
        reveal_strlit("7");
        reveal_strlit("8");
        reveal_strlit("9");
        assert(ds@ =~= seq![digit_char(v as int)]);
    }
    s.append(ds);
}

/// Renders a valid date as its canonical "YYYY-MM-DD" string.
pub fn format_date(d: &Date) -> (r: String)
    requires
        date_valid(*d),
    ensures
        r@ == date_to_str(*d),
{
    let mut s = String::new();
    let y = d.year;
    push_digit(&mut s, y / 10 / 10 / 10);
    push_digit(&mut s, y / 10 / 10 % 10);
    push_digit(&mut s, y / 10 % 10);
    push_digit(&mut s, y % 10);
    proof {
        reveal_strlit("-");
        assert("-"@ =~= seq!['-']);
    }
    s.append("-");
    push_digit(&mut s, d.month / 10);
    push_digit(&mut s, d.month % 10);
    s.append("-");
    push_digit(&mut s, d.day / 10);
    push_digit(&mut s, d.day % 10);
    proof {
        assert(s@ =~= date_to_str(*d));
    }
    s
}

/// Reads a canonical "YYYY-MM-DD" string as a date.
pub fn parse_date(s: &str) -> (r: Option<Date>)
    ensures
        r == str_to_date(s@),
{
    let n = s.unicode_len();
    if n != 10 {
        return None;
    }
    let a0 = match char_digit(s.get_char(0)) {
        Some(v) => v,
        None => { return None },
    };
    let a1 = match char_digit(s.get_char(1)) {
        Some(v) => v,
        None => { return None },
    };
    let a2 = match char_digit(s.get_char(2)) {
        Some(v) => v,
        None => { return None },
    };
    let a3 = match char_digit(s.get_char(3)) {
        Some(v) => v,
        None => { return None },
    };
    if s.get_char(4) != '-' {
        return None;
    }
    let b0 = match char_digit(s.get_char(5)) {
        Some(v) => v,
        None => { return None },
    };
    let b1 = match char_digit(s.get_char(6)) {
        Some(v) => v,
        None => { return None },
    };
    if s.get_char(7) != '-' {
        return None;
    }
    let c0 = match char_digit(s.get_char(8)) {
        Some(v) => v,
        None => { return None },
    };
    let c1 = match char_digit(s.get_char(9)) {
        Some(v) => v,
        None => { return None },
    };
    let d = Date {
        year: ((a0 * 10 + a1) * 10 + a2) * 10 + a3,
        month: b0 * 10 + b1,
        day: c0 * 10 + c1,
    };
    if date_is_valid(&d) {
        Some(d)
    } else {
        None
    }
}

// ---- The "YYYY-MM-DD HH:MM:SS.mmm" timestamp grammar ----

/// A date plus a time of day, millisecond precision.
#[derive(Clone, Copy, PartialEq, Eq, Structural, Debug)]
pub struct Timestamp {
    pub date: Date,
    pub hour: u32,
    pub minute: u32,
    pub second: u32,
    pub milli: u32,
}

pub open spec fn timestamp_valid(t: Timestamp) -> bool {
    &&& date_valid(t.date)
    &&& t.hour <= 23
    &&& t.minute <= 59
    &&& t.second <= 59
    &&& t.milli <= 999
}

/// Milliseconds since 0000-01-01 00:00:00.000: a total order on timestamps.
pub open spec fn timestamp_key(t: Timestamp) -> int {
    day_number(t.date) * 86400000 + (t.hour as int) * 3600000 + (t.minute as int) * 60000 + (
    t.second as int) * 1000 + t.milli as int
}

/// The canonical "YYYY-MM-DD HH:MM:SS.mmm" rendering of a timestamp.
pub open spec fn timestamp_to_str(t: Timestamp) -> Seq<char> {
    let h = t.hour as int;
    let mi = t.minute as int;
    let sec = t.second as int;
    let ms = t.milli as int;
    date_to_str(t.date) + seq![
        ' ',
        digit_char(h / 10),
        digit_char(h % 10),
        ':',
        digit_char(mi / 10),
        digit_char(mi % 10),
        ':',
        digit_char(sec / 10),
        digit_char(sec % 10),
        '.',
        digit_char(ms / 10 / 10),
        digit_char(ms / 10 % 10),
        digit_char(ms % 10),
    ]
}

/// Reads a "YYYY-MM-DD HH:MM:SS.mmm" string; anything else is rejected.
pub open spec fn str_to_timestamp(s: Seq<char>) -> Option<Timestamp> {
    if s.len() == 23 && str_to_date(s.subrange(0, 10)) is Some && s[10] == ' ' && is_digit(s[11])
        && is_digit(s[12]) && s[13] == ':' && is_digit(s[14]) && is_digit(s[15]) && s[16] == ':'
        && is_digit(s[17]) && is_digit(s[18]) && s[19] == '.' && is_digit(s[20]) && is_digit(s[21])
        && is_digit(s[22]) {
        let h = digit_val(s[11]) * 10 + digit_val(s[12]);
        let mi = digit_val(s[14]) * 10 + digit_val(s[15]);
        let sec = digit_val(s[17]) * 10 + digit_val(s[18]);
        let ms = (digit_val(s[20]) * 10 + digit_val(s[21])) * 10 + digit_val(s[22]);
        if h <= 23 && mi <= 59 && sec <= 59 {
            Some(
                Timestamp {
                    date: str_to_date(s.subrange(0, 10))->Some_0,
                    hour: h as u32,
                    minute: mi as u32,
                    second: sec as u32,
                    milli: ms as u32,
                },
            )
        } else {
            None
        }
    } else {
        None
    }
}

/// A valid timestamp's rendering parses back to the same timestamp.
#[verifier::rlimit(60)]
pub proof fn lemma_format_then_parse_timestamp(t: Timestamp)
    requires
        timestamp_valid(t),
    ensures
        str_to_timestamp(timestamp_to_str(t)) == Some(t),
{
    let s = timestamp_to_str(t);
    lemma_format_then_parse(t.date);
    assert(s.subrange(0, 10) =~= date_to_str(t.date));
    let h = t.hour as int;
    let mi = t.minute as int;
    let sec = t.second as int;
    let ms = t.milli as int;
    assert(s.len() == 23);
    assert(s[10] == ' ' && s[13] == ':' && s[16] == ':' && s[19] == '.');
    assert(s[11] == digit_char(h / 10) && s[12] == digit_char(h % 10));
    assert(s[14] == digit_char(mi / 10) && s[15] == digit_char(mi % 10));
    assert(s[17] == digit_char(sec / 10) && s[18] == digit_char(sec % 10));
    assert(s[20] == digit_char(ms / 10 / 10) && s[21] == digit_char(ms / 10 % 10) && s[22]
        == digit_char(ms % 10));
    vstd::arithmetic::div_mod::lemma_fundamental_div_mod(h, 10);
    vstd::arithmetic::div_mod::lemma_fundamental_div_mod(mi, 10);
    vstd::arithmetic::div_mod::lemma_fundamental_div_mod(sec, 10);
    vstd::arithmetic::div_mod::lemma_fundamental_div_mod(ms, 10);
    vstd::arithmetic::div_mod::lemma_fundamental_div_mod(ms / 10, 10);
    vstd::arithmetic::div_mod::lemma_mod_bound(h, 10);
    vstd::arithmetic::div_mod::lemma_mod_bound(mi, 10);
    vstd::arithmetic::div_mod::lemma_mod_bound(sec, 10);
    vstd::arithmetic::div_mod::lemma_mod_bound(ms, 10);
    vstd::arithmetic::div_mod::lemma_mod_bound(ms / 10, 10);
    assert(digit_val(digit_char(h / 10)) == h / 10 && digit_val(digit_char(h % 10)) == h % 10);
    assert(digit_val(digit_char(mi / 10)) == mi / 10 && digit_val(digit_char(mi % 10)) == mi % 10);
    assert(digit_val(digit_char(sec / 10)) == sec / 10 && digit_val(digit_char(sec % 10)) == sec
        % 10);
    assert(digit_val(digit_char(ms / 10 / 10)) == ms / 10 / 10 && digit_val(
        digit_char(ms / 10 % 10),
    ) == ms / 10 % 10 && digit_val(digit_char(ms % 10)) == ms % 10);
    assert((h / 10 * 10 + h % 10) == h);
    assert((mi / 10 * 10 + mi % 10) == mi);
    assert((sec / 10 * 10 + sec % 10) == sec);
    assert(((ms / 10 / 10 * 10 + ms / 10 % 10) * 10 + ms % 10) == ms);
    assert(str_to_timestamp(s) == Some(t));
}

/// Renders a valid timestamp as its canonical string.
pub fn format_timestamp(t: &Timestamp) -> (r: String)
    requires
        timestamp_valid(*t),
    ensures
        r@ == timestamp_to_str(*t),
{
    let mut s = format_date(&t.date);
    proof {
        reveal_strlit(" ");
        reveal_strlit(":");
        reveal_strlit(".");
        assert(" "@ =~= seq![' ']);
        assert(":"@ =~= seq![':']);
        assert("."@ =~= seq!['.']);
    }
    s.append(" ");
    push_digit(&mut s, t.hour / 10);
    push_digit(&mut s, t.hour % 10);
    s.append(":");
    push_digit(&mut s, t.minute / 10);
    push_digit(&mut s, t.minute % 10);
    s.append(":");
    push_digit(&mut s, t.second / 10);
    push_digit(&mut s, t.second % 10);
    s.append(".");
    push_digit(&mut s, t.milli / 10 / 10);
    push_digit(&mut s, t.milli / 10 % 10);
    push_digit(&mut s, t.milli % 10);
    proof {
        assert(s@ =~= timestamp_to_str(*t));
    }
    s
}

/// Reads a canonical "YYYY-MM-DD HH:MM:SS.mmm" string as a timestamp.
pub fn parse_timestamp(s: &str) -> (r: Option<Timestamp>)
    ensures
        r == str_to_timestamp(s@),
{
    let n = s.unicode_len();
    if n != 23 {
        return None;
    }
    let date_part = s.substring_char(0, 10);
    let date = match parse_date(date_part) {
        Some(d) => d,
        None => { return None },
    };
    if s.get_char(10) != ' ' {
        return None;
    }
    let h0 = match char_digit(s.get_char(11)) {
        Some(v) => v,
        None => { return None },
    };
    let h1 = match char_digit(s.get_char(12)) {
        Some(v) => v,
        None => { return None },
    };
    if s.get_char(13) != ':' {
        return None;
    }
    let m0 = match char_digit(s.get_char(14)) {
        Some(v) => v,
        None => { return None },
    };
    let m1 = match char_digit(s.get_char(15)) {
        Some(v) => v,
        None => { return None },
    };
    if s.get_char(16) != ':' {
        return None;
    }
    let s0 = match char_digit(s.get_char(17)) {
        Some(v) => v,
        None => { return None },
    };
    let s1 = match char_digit(s.get_char(18)) {
        Some(v) => v,
        None => { return None },
    };
    if s.get_char(19) != '.' {
        return None;
    }
    let ms0 = match char_digit(s.get_char(20)) {
        Some(v) => v,
        None => { return None },
    };
    let ms1 = match char_digit(s.get_char(21)) {
        Some(v) => v,
        None => { return None },
    };
    let ms2 = match char_digit(s.get_char(22)) {
        Some(v) => v,
        None => { return None },
    };
    let h = h0 * 10 + h1;
    let mi = m0 * 10 + m1;
    let sec = s0 * 10 + s1;
    let ms = (ms0 * 10 + ms1) * 10 + ms2;
    if h <= 23 && mi <= 59 && sec <= 59 {
        Some(Timestamp { date, hour: h, minute: mi, second: sec, milli: ms })
    } else {
        None
    }
}

} // verus!
