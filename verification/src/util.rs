//! The clock boundary and small string helpers. The server's reference time
//! is one fixed UTC offset chosen server-wide (UTC+10), never the caller's
//! local time zone.
use crate::dates::{
    date_is_valid, date_to_str, date_valid, format_date, format_timestamp,
    lemma_format_then_parse_timestamp, month_days, parse_date, str_to_date, str_to_timestamp,
    timestamp_to_str, timestamp_valid, Date, Timestamp,
};
use vstd::prelude::*;
use vstd::string::StrSliceExecFns;

verus! {

/// Character-for-character string equality.
pub fn str_eq(a: &str, b: &str) -> (r: bool)
    ensures
        r == (a@ == b@),
{
    let n = a.unicode_len();
    if n != b.unicode_len() {
        return false;
    }
    let mut i: usize = 0;
    while i < n
        invariant
            0 <= i <= n,
            n == a@.len() == b@.len(),
            forall|k: int| 0 <= k < i ==> a@[k] == b@[k],
        decreases n - i,
    {
        if a.get_char(i) != b.get_char(i) {
            return false;
        }
        i = i + 1;
    }
    proof {
        assert(a@ =~= b@);
    }
    true
}

/// Relies on chrono: `Utc::now` shifted to the fixed +10:00 server offset,
/// read through the `Datelike` and `Timelike` accessors, whose documented
/// ranges are stated here (milliseconds may reach 1999 on a leap second).
#[verifier::external_body]
fn now_fields() -> (r: (i32, u32, u32, u32, u32, u32, u32))
    ensures
        1 <= r.1 <= 12,
        1 <= r.2 <= 31,
        r.3 <= 23,
        r.4 <= 59,
        r.5 <= 59,
        r.6 <= 1999,
{
    let offset = chrono::FixedOffset::east_opt(10 * 60 * 60).unwrap();
    let now = chrono::Utc::now().with_timezone(&offset);
    (
        chrono::Datelike::year(&now),
        chrono::Datelike::month(&now),
        chrono::Datelike::day(&now),
        chrono::Timelike::hour(&now),
        chrono::Timelike::minute(&now),
        chrono::Timelike::second(&now),
        now.timestamp_subsec_millis(),
    )
}

/// The current timestamp in the server's reference offset, clamped into the
/// representable calendar (years 0 through 9999, milliseconds 0 through 999).
pub fn get_now() -> (r: Timestamp)
    ensures
        timestamp_valid(r),
{
    let (y, mo, d, h, mi, s, ms) = now_fields();
    let year: u32 = if y < 0 {
        0
    } else if y > 9999 {
        9999
    } else {
        y as u32
    };
    let md = month_days(year, mo);
    let day = if d > md {
        md
    } else {
        d
    };
    let date = Date { year, month: mo, day };
    let milli = if ms > 999 {
        999
    } else {
        ms
    };
    Timestamp { date, hour: h, minute: mi, second: s, milli }
}

/// The current date, rendered "YYYY-MM-DD".
pub fn get_current_date() -> (r: String)
    ensures
        exists|d: Date| date_valid(d) && r@ == date_to_str(d),
        str_to_date(r@) is Some,
{
    let now = get_now();
    let r = format_date(&now.date);
    proof {
        assert(date_valid(now.date) && r@ == date_to_str(now.date));
        crate::dates::lemma_format_then_parse(now.date);
    }
    r
}

/// The current date and time, rendered "YYYY-MM-DD HH:MM:SS.mmm".
pub fn get_current_date_time() -> (r: String)
    ensures
        exists|t: Timestamp| timestamp_valid(t) && r@ == timestamp_to_str(t),
        str_to_timestamp(r@) is Some,
{
    let now = get_now();
    let r = format_timestamp(&now);
    proof {
        assert(timestamp_valid(now) && r@ == timestamp_to_str(now));
        lemma_format_then_parse_timestamp(now);
    }
    r
}

/// Reads a stored "YYYY-MM-DD" date column value.
pub fn from_sqlite_date(sdate: &String) -> (r: Option<Date>)
    ensures
        r == str_to_date(sdate@),
{
    parse_date(sdate.as_str())
}

/// Renders a date for a "YYYY-MM-DD" date column.
pub fn to_sqlite_date(cdate: &Date) -> (r: String)
    requires
        date_valid(*cdate),
    ensures
        r@ == date_to_str(*cdate),
{
    format_date(cdate)
}

} // verus!
