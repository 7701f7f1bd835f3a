//! Recurring spend windows: a budget's start date and period length tile the
//! calendar, from the start date on, into contiguous inclusive windows of
//! equal length. Window arithmetic is done on day numbers.
use crate::dates::{
    date_valid, day_number, lemma_day_number_in_year, lemma_day_number_mono, Date,
};
use vstd::prelude::*;

verus! {

/// A spend window on the wire: both dates inclusive, "YYYY-MM-DD".
#[derive(Debug)]
pub struct BudgetPeriod {
    pub period_id: i64,
    pub start_date: String,
    pub end_date: String,
}

impl BudgetPeriod {
    pub fn new(period_id: i64, start_date: String, end_date: String) -> (r: BudgetPeriod)
        ensures
            r.period_id == period_id,
            r.start_date == start_date,
            r.end_date == end_date,
    {
        BudgetPeriod { period_id, start_date, end_date }
    }
}

/// First day of window `p` of a budget anchored at day `start_day` with
/// period length `len`.
pub open spec fn window_start_day(start_day: int, len: int, p: int) -> int {
    start_day + p * len
}

/// Last day (inclusive) of window `p`.
pub open spec fn window_end_day(start_day: int, len: int, p: int) -> int {
    start_day + (p + 1) * len - 1
}

/// The index of the window containing `now_day`, for `now_day >= start_day`.
pub open spec fn period_index_of(start_day: int, len: int, now_day: int) -> int {
    (now_day - start_day) / len
}

/// Windows tile the timeline: each window holds exactly `len` days, and
/// consecutive windows are adjacent, with no gap and no overlap.
pub proof fn lemma_windows_tile(start_day: int, len: int, p: int)
    requires
        len >= 1,
        p >= 0,
    ensures
        window_end_day(start_day, len, p) - window_start_day(start_day, len, p) + 1 == len,
        window_start_day(start_day, len, p + 1) == window_end_day(start_day, len, p) + 1,
{
    assert((p + 1) * len == p * len + len) by (nonlinear_arith);
    assert((p + 2) * len == (p + 1) * len + len) by (nonlinear_arith);
}

/// For any day at or past the start day there is exactly one window that
/// contains it, the one at index `period_index_of`.
pub proof fn lemma_period_index_unique(start_day: int, len: int, now_day: int)
    requires
        len >= 1,
        now_day >= start_day,
    ensures
        ({
            let p = period_index_of(start_day, len, now_day);
            &&& p >= 0
            &&& window_start_day(start_day, len, p) <= now_day <= window_end_day(start_day, len, p)
            &&& forall|q: int|
                #[trigger] window_start_day(start_day, len, q) <= now_day <= window_end_day(
                    start_day,
                    len,
                    q,
                ) ==> q == p
        }),
{
    let d = now_day - start_day;
    let p = d / len;
    let r = d % len;
    vstd::arithmetic::div_mod::lemma_fundamental_div_mod(d, len);
    vstd::arithmetic::div_mod::lemma_mod_bound(d, len);
    assert(p >= 0) by (nonlinear_arith)
        requires
            d >= 0,
            len >= 1,
            d == len * p + r,
            0 <= r < len,
    ;
    assert((p + 1) * len == p * len + len) by (nonlinear_arith);
    assert forall|q: int|
        #[trigger] window_start_day(start_day, len, q) <= now_day <= window_end_day(
            start_day,
            len,
            q,
        ) implies q == p by {
        if q < p {
            assert((q + 1) * len <= p * len) by (nonlinear_arith)
                requires
                    q + 1 <= p,
                    len >= 1,
            ;
        }
        if q > p {
            assert(q * len >= (p + 1) * len) by (nonlinear_arith)
                requires
                    q >= p + 1,
                    len >= 1,
            ;
        }
    }
}

/// Whether some valid date has day number `n`.
pub open spec fn day_has_date(n: int) -> bool {
    exists|d: Date| date_valid(d) && day_number(d) == n
}

/// The valid date with day number `n`, when one exists. It is unique, by
/// `lemma_day_number_injective`.
pub open spec fn date_of_day(n: int) -> Date {
    choose|d: Date| date_valid(d) && day_number(d) == n
}

/// Two valid dates with the same day number are the same date.
pub proof fn lemma_day_number_injective(a: Date, b: Date)
    requires
        date_valid(a),
        date_valid(b),
        day_number(a) == day_number(b),
    ensures
        a == b,
{
    if a.year < b.year || (a.year == b.year && a.month < b.month) || (a.year == b.year && a.month
        == b.month && a.day < b.day) {
        lemma_day_number_mono(a, b);
    } else if b.year < a.year || (b.year == a.year && b.month < a.month) || (b.year == a.year
        && b.month == a.month && b.day < a.day) {
        lemma_day_number_mono(b, a);
    }
}

/// The dates of window `p`, or `None` when the window falls outside the
/// representable calendar (past 9999-12-31).
pub fn window_for(start_day: u64, len: i64, p: i64) -> (r: Option<(Date, Date)>)
    requires
        start_day < 3660000,
        len >= 1,
        p >= 0,
    ensures
        ({
            let wsd = window_start_day(start_day as int, len as int, p as int);
            let wed = window_end_day(start_day as int, len as int, p as int);
            match r {
                Some(w) => {
                    &&& date_valid(w.0) && date_valid(w.1)
                    &&& day_number(w.0) == wsd && day_number(w.1) == wed
                    &&& day_has_date(wsd) && day_has_date(wed)
                    &&& w.0 == date_of_day(wsd) && w.1 == date_of_day(wed)
                },
                None => !day_has_date(wsd) || !day_has_date(wed),
            }
        }),
{
    let ghost wsd = window_start_day(start_day as int, len as int, p as int);
    let ghost wed = window_end_day(start_day as int, len as int, p as int);
    assert((p as u128) * (len as u128) == (p as int) * (len as int) && (p as u128) * (len as u128)
        < 0x40000000000000000000000000000000u128) by (nonlinear_arith)
        requires
            0 <= p < 0x8000000000000000,
            1 <= len < 0x8000000000000000,
    ;
    proof {
        assert((p as int + 1) * (len as int) == (p as int) * (len as int) + (len as int))
            by (nonlinear_arith);
    }
    let pl: u128 = (p as u128) * (len as u128);
    let ws128: u128 = start_day as u128 + pl;
    let we128: u128 = start_day as u128 + pl + (len as u128) - 1;
    if we128 >= 3660000 {
        proof {
            assert forall|d: Date| date_valid(d) implies day_number(d) != wed by {
                lemma_day_number_in_year(d);
            }
        }
        return None;
    }
    let ws = crate::dates::from_day_number(ws128 as u64);
    let we = crate::dates::from_day_number(we128 as u64);
    match (ws, we) {
        (Some(a), Some(b)) => {
            proof {
                assert(day_number(a) == wsd && day_number(b) == wed);
                assert(day_has_date(wsd) && day_has_date(wed));
                lemma_day_number_injective(a, date_of_day(wsd));
                lemma_day_number_injective(b, date_of_day(wed));
            }
            Some((a, b))
        },
        _ => None,
    }
}

} // verus!
