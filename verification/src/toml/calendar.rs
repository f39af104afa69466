//! Full dates are checked against the Gregorian calendar, and times
//! against the clock.

use vstd::prelude::*;
use crate::toml::ParseResult;
use crate::toml::scalar::{valid_day, full_date_spec, partial_time_spec, numoffset_spec, is_dec};
use crate::markers::{
    DATE_INVALID_DAY, DATE_INVALID_MONTH, TIME_HOUR_OUT_OF_RANGE, TIME_MINUTE_OUT_OF_RANGE,
    TIME_SECOND_OUT_OF_RANGE,
};

verus! {

/// The lengths of the months of a common year, January first.
pub open spec fn common_month_lengths() -> Seq<int> {
    seq![31, 28, 31, 30, 31, 30, 31, 31, 30, 31, 30, 31]
}

/// The number of days of `month` (1 to 12) in `year`: February gains a day
/// in years divisible by 4 but not by 100, and in years divisible by 400.
pub open spec fn month_length(month: int, year: int) -> int {
    common_month_lengths()[month - 1] + if month == 2 && ((year % 4 == 0 && year % 100 != 0)
        || year % 400 == 0) {
        1int
    } else {
        0int
    }
}

/// Law: a day is valid in a month of a year exactly when it lies between 1
/// and the length of that month in the Gregorian calendar.
pub proof fn lemma_valid_day_calendar(month: int, day: int, year: int)
    requires
        1 <= month <= 12,
    ensures
        valid_day(month, day, year) <==> 1 <= day <= month_length(month, year),
{
}

/// The value of a decimal digit.
pub open spec fn digit(c: char) -> int {
    c as int - '0' as int
}

/// Law: a date `YYYY-MM-DD` at `p` with a month from 01 to 12 is read as a
/// date exactly when its day lies between 1 and the length of that month in
/// that year; any other day is refused as `date_invalid_day`. A month
/// outside 01 to 12 is refused as `date_invalid_month` when the day is from
/// 01 to 31.
pub proof fn lemma_full_date_calendar(s: Seq<char>, p: int)
    requires
        0 <= p,
        p + 10 <= s.len(),
        s[p + 4] == '-',
        s[p + 7] == '-',
        forall|i: int| 0 <= i < 10 && i != 4 && i != 7 ==> is_dec(#[trigger] s[p + i]),
    ensures
        1 <= digit(s[p + 5]) * 10 + digit(s[p + 6]) <= 12 ==> ({
            let year = digit(s[p]) * 1000 + digit(s[p + 1]) * 100 + digit(s[p + 2]) * 10 + digit(
                s[p + 3],
            );
            let month = digit(s[p + 5]) * 10 + digit(s[p + 6]);
            let day = digit(s[p + 8]) * 10 + digit(s[p + 9]);
            full_date_spec(s, p) == if 1 <= day <= month_length(month, year) {
                ParseResult::Value(s.subrange(p, p + 10), (p + 10) as usize)
            } else {
                ParseResult::<Seq<char>>::Error(DATE_INVALID_DAY)
            }
        }),
        !(1 <= digit(s[p + 5]) * 10 + digit(s[p + 6]) <= 12) ==> 1 <= digit(s[p + 8]) * 10 + digit(
            s[p + 9],
        ) <= 31 ==> full_date_spec(s, p) == ParseResult::<Seq<char>>::Error(DATE_INVALID_MONTH),
{
    assert(is_dec(s[p + 0]));
    assert(is_dec(s[p + 1]));
    assert(is_dec(s[p + 2]));
    assert(is_dec(s[p + 3]));
    assert(is_dec(s[p + 5]));
    assert(is_dec(s[p + 6]));
    assert(is_dec(s[p + 8]));
    assert(is_dec(s[p + 9]));
    reveal_with_fuel(crate::toml::scalar::year_spec, 5);
}

/// Law: a time `HH:MM` at `p` whose hour is above 23 is refused as
/// `time_hour_out_of_range`; one whose hour is at most 23 and whose minute
/// is above 59 is refused as `time_minute_out_of_range`.
pub proof fn lemma_partial_time_clock(s: Seq<char>, p: int)
    requires
        0 <= p,
        p + 5 <= s.len(),
        s[p + 2] == ':',
        is_dec(s[p]),
        is_dec(s[p + 1]),
        is_dec(s[p + 3]),
        is_dec(s[p + 4]),
    ensures
        digit(s[p]) * 10 + digit(s[p + 1]) > 23 ==> partial_time_spec(s, p) == ParseResult::<
            Seq<char>,
        >::Error(TIME_HOUR_OUT_OF_RANGE),
        digit(s[p]) * 10 + digit(s[p + 1]) <= 23 && digit(s[p + 3]) * 10 + digit(s[p + 4]) > 59
            ==> partial_time_spec(s, p) == ParseResult::<Seq<char>>::Error(TIME_MINUTE_OUT_OF_RANGE),
{
}

/// Law: a time `HH:MM:SS` at `p`, with no fraction after it, is read as
/// that text exactly when its hour is at most 23, its minute at most 59 and
/// its second at most 60 (a leap second); a second above 60 is refused as
/// `time_second_out_of_range`.
pub proof fn lemma_partial_time_seconds(s: Seq<char>, p: int)
    requires
        s.len() <= usize::MAX,
        0 <= p,
        p + 8 <= s.len(),
        s[p + 2] == ':',
        s[p + 5] == ':',
        forall|i: int| 0 <= i < 8 && i != 2 && i != 5 ==> is_dec(#[trigger] s[p + i]),
        p + 8 == s.len() || s[p + 8] != '.',
        digit(s[p]) * 10 + digit(s[p + 1]) <= 23,
        digit(s[p + 3]) * 10 + digit(s[p + 4]) <= 59,
    ensures
        digit(s[p + 6]) * 10 + digit(s[p + 7]) <= 60 ==> partial_time_spec(s, p)
            == ParseResult::Value(s.subrange(p, p + 8), (p + 8) as usize),
        digit(s[p + 6]) * 10 + digit(s[p + 7]) > 60 ==> partial_time_spec(s, p) == ParseResult::<
            Seq<char>,
        >::Error(TIME_SECOND_OUT_OF_RANGE),
{
    assert(is_dec(s[p + 0]));
    assert(is_dec(s[p + 1]));
    assert(is_dec(s[p + 3]));
    assert(is_dec(s[p + 4]));
    assert(is_dec(s[p + 6]));
    assert(is_dec(s[p + 7]));
    assert(s.subrange(p, p + 5) + seq![':'] + s.subrange(p + 6, p + 8) =~= s.subrange(p, p + 8));
}

/// Law: an offset `+HH:MM` or `-HH:MM` at `p` is read exactly when its hour
/// is at most 23 and its minute at most 59; a larger hour is refused as
/// `time_hour_out_of_range`, and a larger minute as
/// `time_minute_out_of_range`.
pub proof fn lemma_offset_clock(s: Seq<char>, p: int)
    requires
        s.len() <= usize::MAX,
        0 <= p,
        p + 6 <= s.len(),
        s[p] == '+' || s[p] == '-',
        s[p + 3] == ':',
        is_dec(s[p + 1]),
        is_dec(s[p + 2]),
        is_dec(s[p + 4]),
        is_dec(s[p + 5]),
    ensures
        ({
            let hour = digit(s[p + 1]) * 10 + digit(s[p + 2]);
            let minute = digit(s[p + 4]) * 10 + digit(s[p + 5]);
            numoffset_spec(s, p) == if hour > 23 {
                ParseResult::Error(TIME_HOUR_OUT_OF_RANGE)
            } else if minute > 59 {
                ParseResult::Error(TIME_MINUTE_OUT_OF_RANGE)
            } else {
                ParseResult::Value((), (p + 6) as usize)
            }
        }),
{
}

} // verus!
