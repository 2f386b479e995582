//! Calendar dates as the store keeps them: `YYYY-MM-DD` text with year, month
//! and day numbers.
use vstd::prelude::*;
use chrono::Datelike;
use crate::text::{split_spec, split_text};
use crate::number::{parse_i32, parse_u32, parsed_i32, parsed_u32, padded_decimal, push_padded};

verus! {

#[derive(Debug, Clone, Copy, PartialEq, Eq, Structural, PartialOrd, Ord, Hash)]
pub enum Month {
    January,
    February,
    March,
    April,
    May,
    June,
    July,
    August,
    September,
    October,
    November,
    December,
}

impl Default for Month {
    fn default() -> (r: Month)
        ensures
            r == Month::January,
    {
        Month::January
    }
}

/// The number of a month in the year, January being 1.
pub open spec fn month_number(m: Month) -> int {
    match m {
        Month::January => 1,
        Month::February => 2,
        Month::March => 3,
        Month::April => 4,
        Month::May => 5,
        Month::June => 6,
        Month::July => 7,
        Month::August => 8,
        Month::September => 9,
        Month::October => 10,
        Month::November => 11,
        Month::December => 12,
    }
}

/// The month with number `index`; any number outside `1..=12` gives December.
pub fn month_from_index(index: u32) -> (r: Month)
    ensures
        1 <= index <= 12 ==> month_number(r) == index,
        !(1 <= index <= 12) ==> r == Month::December,
{
    match index {
        1 => Month::January,
        2 => Month::February,
        3 => Month::March,
        4 => Month::April,
        5 => Month::May,
        6 => Month::June,
        7 => Month::July,
        8 => Month::August,
        9 => Month::September,
        10 => Month::October,
        11 => Month::November,
        _ => Month::December,
    }
}

/// The number of `month` in the year.
pub fn month_to_index(month: Month) -> (r: i32)
    ensures
        r == month_number(month),
{
    match month {
        Month::January => 1,
        Month::February => 2,
        Month::March => 3,
        Month::April => 4,
        Month::May => 5,
        Month::June => 6,
        Month::July => 7,
        Month::August => 8,
        Month::September => 9,
        Month::October => 10,
        Month::November => 11,
        Month::December => 12,
    }
}

/// A calendar date; dates order by year, then month, then day.
#[derive(Debug, Clone, Copy, PartialEq, Eq, Structural, PartialOrd, Ord, Hash, Default)]
pub struct Date {
    pub year: i32,
    pub month: Month,
    pub day: i32,
}

/// The `YYYY-MM-DD` text of a date: the year padded to four characters, month
/// and day to two.
pub open spec fn sql_date_text(date: Date) -> Seq<char> {
    padded_decimal(date.year as int, 4) + seq!['-'] + padded_decimal(month_number(date.month), 2)
        + seq!['-'] + padded_decimal(date.day as int, 2)
}

/// The date that a text `Y-M-D` names: three parts between dashes, a year that
/// fits an `i32`, a month in `1..=12` and a day in `1..=31`.
pub open spec fn sql_date_of(text: Seq<char>) -> Option<Date> {
    let parts = split_spec(text, '-');
    if parts.len() != 3 {
        None
    } else {
        match (parsed_i32(parts[0]), parsed_u32(parts[1]), parsed_i32(parts[2])) {
            (Some(y), Some(m), Some(d)) => if 1 <= m <= 12 && 1 <= d <= 31 {
                Some(Date { year: y as i32, month: month_of_number(m), day: d as i32 })
            } else {
                None
            },
            _ => None,
        }
    }
}

pub open spec fn month_of_number(m: int) -> Month {
    if m == 1 { Month::January } else if m == 2 { Month::February } else if m == 3 { Month::March }
    else if m == 4 { Month::April } else if m == 5 { Month::May } else if m == 6 { Month::June }
    else if m == 7 { Month::July } else if m == 8 { Month::August } else if m == 9 { Month::September }
    else if m == 10 { Month::October } else if m == 11 { Month::November } else { Month::December }
}

/// Relies on chrono's `Local::now` and `Datelike`: today's date in the local
/// time zone, with a month in `1..=12` and a day in `1..=31`.
#[verifier::external_body]
fn local_date_now() -> (r: (i32, u32, u32))
    ensures
        1 <= r.1 <= 12,
        1 <= r.2 <= 31,
{
    let d = chrono::Local::now().date_naive();
    (d.year(), d.month(), d.day())
}

/// Today's date on this machine's clock.
pub fn today() -> (r: Date)
    ensures
        1 <= month_number(r.month) <= 12,
        1 <= r.day <= 31,
{
    let (y, m, d) = local_date_now();
    let month = month_from_index(m);
    Date { day: d as i32, month, year: y }
}

/// The `YYYY-MM-DD` text of `date`.
pub fn format_as_sql_date(date: Date) -> (r: String)
    ensures
        r@ == sql_date_text(date),
{
    let mut r = String::new();
    push_padded(&mut r, date.year as i64, 4);
    proof {
        reveal_strlit("-");
    }
    r.append("-");
    push_padded(&mut r, month_to_index(date.month) as i64, 2);
    r.append("-");
    push_padded(&mut r, date.day as i64, 2);
    assert(r@ =~= sql_date_text(date));
    r
}

/// The date written as `Y-M-D` in `text`, if it names one.
pub fn read_sql_date(text: &str) -> (r: Option<Date>)
    ensures
        r == sql_date_of(text@),
{
    let parts = split_text(text, '-');
    if parts.len() != 3 {
        return None;
    }
    assert(parts[0]@ == split_spec(text@, '-')[0]);
    assert(parts[1]@ == split_spec(text@, '-')[1]);
    assert(parts[2]@ == split_spec(text@, '-')[2]);
    let year = match parse_i32(parts[0].as_str()) {
        Some(y) => y,
        None => return None,
    };
    let month = match parse_u32(parts[1].as_str()) {
        Some(m) => if 1 <= m && m <= 12 {
            month_from_index(m)
        } else {
            return None;
        },
        None => return None,
    };
    let day = match parse_i32(parts[2].as_str()) {
        Some(d) => if 1 <= d && d <= 31 {
            d
        } else {
            return None;
        },
        None => return None,
    };
    Some(Date { day, month, year })
}

} // verus!
