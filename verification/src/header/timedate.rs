//! The base time and base date of a record, held as plain calendar values
//! with their validity invariants, and parsed from the header's `HH:MM:SS`
//! and `DD/MM/YYYY` fields.

use vstd::prelude::*;

use crate::header::text::{all_digits, digits_val, spec_find, find_char, is_digit, digit,
    lemma_spec_find, lemma_digits_val_nonneg, lemma_digits_val_width};

verus! {

/// A time of day: hours, minutes, seconds.
#[derive(Debug, Clone, Copy, PartialEq, Eq, Structural)]
pub struct BaseTime {
    /// Hour, 0 to 23.
    pub hour: u8,
    /// Minute, 0 to 59.
    pub minute: u8,
    /// Second, 0 to 59.
    pub second: u8,
}

impl BaseTime {
    /// A valid time of day.
    pub open spec fn wf(&self) -> bool {
        self.hour < 24 && self.minute < 60 && self.second < 60
    }

    /// Builds a time of day; `None` exactly when a component is out of
    /// range.
    pub fn new(hour: u8, minute: u8, second: u8) -> (r: Option<BaseTime>)
        ensures
            (hour < 24 && minute < 60 && second < 60) ==> r == Some(
                BaseTime { hour, minute, second },
            ),
            !(hour < 24 && minute < 60 && second < 60) ==> r is None,
            r matches Some(t) ==> t.wf(),
    {
        if hour < 24 && minute < 60 && second < 60 {
            Some(BaseTime { hour, minute, second })
        } else {
            None
        }
    }
}

/// A calendar date: day, month, year.
#[derive(Debug, Clone, Copy, PartialEq, Eq, Structural)]
pub struct BaseDate {
    /// Day of the month, 1-based.
    pub day: u8,
    /// Month, 1 to 12.
    pub month: u8,
    /// Year, 0 to 9999.
    pub year: u16,
}

/// Whether a year is a leap year in the Gregorian calendar.
pub open spec fn spec_is_leap_year(y: int) -> bool {
    y % 4 == 0 && (y % 100 != 0 || y % 400 == 0)
}

/// The number of days in a month.
pub open spec fn spec_days_in_month(year: int, month: int) -> int {
    if month == 2 {
        if spec_is_leap_year(year) {
            29
        } else {
            28
        }
    } else if month == 4 || month == 6 || month == 9 || month == 11 {
        30
    } else {
        31
    }
}

impl BaseDate {
    /// A valid calendar date.
    pub open spec fn wf(&self) -> bool {
        &&& 1 <= self.month <= 12
        &&& 1 <= self.day <= spec_days_in_month(self.year as int, self.month as int)
        &&& self.year <= 9999
    }

    /// Builds a calendar date; `None` exactly when the combination is not a
    /// valid date.
    pub fn new(year: u16, month: u8, day: u8) -> (r: Option<BaseDate>)
        ensures
            (BaseDate { day, month, year }).wf() ==> r == Some(BaseDate { day, month, year }),
            !(BaseDate { day, month, year }).wf() ==> r is None,
            r matches Some(d) ==> d.wf(),
    {
        let dim: u8 = if month == 2 {
            if (year % 4 == 0) && (year % 100 != 0 || year % 400 == 0) {
                29
            } else {
                28
            }
        } else if month == 4 || month == 6 || month == 9 || month == 11 {
            30
        } else {
            31
        };
        if 1 <= month && month <= 12 && 1 <= day && day <= dim && year <= 9999 {
            Some(BaseDate { day, month, year })
        } else {
            None
        }
    }
}

/// A one- or two-digit numeric field, as used by the time and date formats.
pub open spec fn spec_field2(s: Seq<char>) -> Option<int> {
    if 1 <= s.len() <= 2 && all_digits(s) {
        Some(digits_val(s))
    } else {
        None
    }
}

/// A one- to four-digit numeric field, as used by the year.
pub open spec fn spec_field4(s: Seq<char>) -> Option<int> {
    if 1 <= s.len() <= 4 && all_digits(s) {
        Some(digits_val(s))
    } else {
        None
    }
}

/// The time of day denoted by an `HH:MM:SS` token, with each field one or
/// two digits and in range. `None` when malformed.
pub open spec fn spec_parse_time(s: Seq<char>) -> Option<(int, int, int)> {
    let c1 = spec_find(s, ':');
    if c1 >= s.len() {
        None
    } else {
        let rest = s.skip(c1 + 1);
        let c2 = spec_find(rest, ':');
        if c2 >= rest.len() {
            None
        } else {
            match (spec_field2(s.take(c1)), spec_field2(rest.take(c2)), spec_field2(
                rest.skip(c2 + 1),
            )) {
                (Some(h), Some(m), Some(sec)) => {
                    if h < 24 && m < 60 && sec < 60 {
                        Some((h, m, sec))
                    } else {
                        None
                    }
                },
                _ => None,
            }
        }
    }
}

/// The calendar date denoted by a `DD/MM/YYYY` token, with one- or two-digit
/// day and month, a one- to four-digit year, and real-calendar validity.
/// `None` when malformed.
pub open spec fn spec_parse_date(s: Seq<char>) -> Option<(int, int, int)> {
    let c1 = spec_find(s, '/');
    if c1 >= s.len() {
        None
    } else {
        let rest = s.skip(c1 + 1);
        let c2 = spec_find(rest, '/');
        if c2 >= rest.len() {
            None
        } else {
            match (spec_field2(s.take(c1)), spec_field2(rest.take(c2)), spec_field4(
                rest.skip(c2 + 1),
            )) {
                (Some(d), Some(m), Some(y)) => {
                    if 1 <= m <= 12 && 1 <= d <= spec_days_in_month(y, m) && y <= 9999 {
                        Some((d, m, y))
                    } else {
                        None
                    }
                },
                _ => None,
            }
        }
    }
}

/// Parses a short all-digit field of at most `width` digits.
fn parse_field(s: &str, width: usize) -> (r: Option<u16>)
    requires
        1 <= width <= 4,
    ensures
        ({
            let v = if 1 <= s@.len() <= width && all_digits(s@) {
                Some(digits_val(s@))
            } else {
                None::<int>
            };
            match r {
                Some(x) => v == Some(x as int),
                None => v is None,
            }
        }),
{
    broadcast use lemma_digits_val_nonneg;

    let n = s.unicode_len();
    if n < 1 || n > width {
        return None;
    }
    let mut i: usize = 0;
    let mut acc: u32 = 0;
    while i < n
        invariant
            i <= n,
            n == s@.len(),
            n <= 4,
            all_digits(s@.take(i as int)),
            acc as int == digits_val(s@.take(i as int)),
            acc <= 9999,
        decreases n - i,
    {
        let c = s.get_char(i);
        if !digit(c) {
            return None;
        }
        let d: u32 = (c as u32) - 48;
        let ghost p2 = s@.take(i as int + 1);
        proof {
            assert(p2.drop_last() =~= s@.take(i as int));
            assert(p2.last() == s@[i as int]);
            assert(forall|k: int| 0 <= k < p2.len() ==> p2[k] == s@[k]);
            lemma_digits_val_width(p2);
        }
        acc = acc * 10 + d;
        i = i + 1;
    }
    proof {
        assert(s@.take(i as int) =~= s@);
    }
    Some(acc as u16)
}

/// Parses an `HH:MM:SS` token, per `spec_parse_time`.
pub fn parse_base_time(s: &str) -> (r: Option<BaseTime>)
    ensures
        match r {
            Some(t) => spec_parse_time(s@) == Some(
                (t.hour as int, t.minute as int, t.second as int),
            ) && t.wf(),
            None => spec_parse_time(s@) is None,
        },
{
    let n = s.unicode_len();
    let c1 = find_char(s, ':');
    proof {
        lemma_spec_find(s@, ':');
    }
    if c1 >= n {
        return None;
    }
    let rest = s.substring_char(c1 + 1, n);
    proof {
        assert(rest@ =~= s@.skip(c1 as int + 1));
        lemma_spec_find(rest@, ':');
    }
    let rest_len = rest.unicode_len();
    let c2 = find_char(rest, ':');
    if c2 >= rest_len {
        return None;
    }
    let h_tok = s.substring_char(0, c1);
    let m_tok = rest.substring_char(0, c2);
    let s_tok = rest.substring_char(c2 + 1, rest_len);
    proof {
        assert(h_tok@ =~= s@.take(c1 as int));
        assert(m_tok@ =~= rest@.take(c2 as int));
        assert(s_tok@ =~= rest@.skip(c2 as int + 1));
    }
    let h = parse_field(h_tok, 2);
    let m = parse_field(m_tok, 2);
    let sec = parse_field(s_tok, 2);
    match (h, m, sec) {
        (Some(h), Some(m), Some(sec)) => {
            if h < 24 && m < 60 && sec < 60 {
                Some(BaseTime { hour: h as u8, minute: m as u8, second: sec as u8 })
            } else {
                None
            }
        },
        _ => None,
    }
}

/// Parses a `DD/MM/YYYY` token, per `spec_parse_date`.
pub fn parse_base_date(s: &str) -> (r: Option<BaseDate>)
    ensures
        match r {
            Some(d) => spec_parse_date(s@) == Some((d.day as int, d.month as int, d.year as int))
                && d.wf(),
            None => spec_parse_date(s@) is None,
        },
{
    let n = s.unicode_len();
    let c1 = find_char(s, '/');
    proof {
        lemma_spec_find(s@, '/');
    }
    if c1 >= n {
        return None;
    }
    let rest = s.substring_char(c1 + 1, n);
    proof {
        assert(rest@ =~= s@.skip(c1 as int + 1));
        lemma_spec_find(rest@, '/');
    }
    let rest_len = rest.unicode_len();
    let c2 = find_char(rest, '/');
    if c2 >= rest_len {
        return None;
    }
    let d_tok = s.substring_char(0, c1);
    let m_tok = rest.substring_char(0, c2);
    let y_tok = rest.substring_char(c2 + 1, rest_len);
    proof {
        assert(d_tok@ =~= s@.take(c1 as int));
        assert(m_tok@ =~= rest@.take(c2 as int));
        assert(y_tok@ =~= rest@.skip(c2 as int + 1));
    }
    let d = parse_field(d_tok, 2);
    let m = parse_field(m_tok, 2);
    let y = parse_field(y_tok, 4);
    match (d, m, y) {
        (Some(d), Some(m), Some(y)) => {
            proof {
                lemma_digits_val_width(d_tok@);
                lemma_digits_val_width(m_tok@);
            }
            match BaseDate::new(y, m as u8, d as u8) {
                Some(date) => Some(date),
                None => None,
            }
        },
        _ => None,
    }
}

} // verus!
