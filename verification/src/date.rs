//! Calendar timestamps: a plain year-to-millisecond value with Gregorian
//! validity, rendered and parsed as an RFC3339 UTC timestamp at
//! millisecond precision, the codec's one fatal field.
use crate::money::{digit_char, digit_val, is_digit, lemma_digit_char_val};
use crate::text::push_char;
use vstd::prelude::*;
use vstd::string::StrSliceExecFns;

verus! {

/// A UTC instant held as plain calendar fields.
#[derive(Clone, Copy, Debug, PartialEq, Eq, Structural)]
pub struct Date {
    pub year: u16,
    pub month: u8,
    pub day: u8,
    pub hour: u8,
    pub minute: u8,
    pub second: u8,
    pub milli: u16,
}

/// Gregorian leap year.
pub open spec fn is_leap_year(y: int) -> bool {
    y % 4 == 0 && (y % 100 != 0 || y % 400 == 0)
}

/// Days in a month of the Gregorian calendar.
pub open spec fn days_in_month(y: int, m: int) -> int {
    if m == 1 || m == 3 || m == 5 || m == 7 || m == 8 || m == 10 || m == 12 {
        31
    } else if m == 4 || m == 6 || m == 9 || m == 11 {
        30
    } else if is_leap_year(y) {
        29
    } else {
        28
    }
}

/// The fields name a real instant the four-digit-year format can carry.
pub open spec fn date_valid(d: Date) -> bool {
    &&& 1 <= d.year <= 9999
    &&& 1 <= d.month <= 12
    &&& 1 <= d.day <= days_in_month(d.year as int, d.month as int)
    &&& d.hour <= 23
    &&& d.minute <= 59
    &&& d.second <= 59
    &&& d.milli <= 999
}

/// The canonical RFC3339 text of a date, millisecond precision, UTC.
pub open spec fn rfc3339_string(d: Date) -> Seq<char> {
    let y = d.year as int;
    let mo = d.month as int;
    let da = d.day as int;
    let h = d.hour as int;
    let mi = d.minute as int;
    let se = d.second as int;
    let ms = d.milli as int;
    seq![
        digit_char(y / 1000),
        digit_char((y / 100) % 10),
        digit_char((y / 10) % 10),
        digit_char(y % 10),
        '-',
        digit_char(mo / 10),
        digit_char(mo % 10),
        '-',
        digit_char(da / 10),
        digit_char(da % 10),
        'T',
        digit_char(h / 10),
        digit_char(h % 10),
        ':',
        digit_char(mi / 10),
        digit_char(mi % 10),
        ':',
        digit_char(se / 10),
        digit_char(se % 10),
        '.',
        digit_char(ms / 100),
        digit_char((ms / 10) % 10),
        digit_char(ms % 10),
        'Z',
    ]
}

/// The fixed shape of a canonical RFC3339 millisecond timestamp.
pub open spec fn rfc3339_shape(s: Seq<char>) -> bool {
    &&& s.len() == 24
    &&& s[4] == '-' && s[7] == '-' && s[10] == 'T' && s[13] == ':' && s[16] == ':' && s[19] == '.'
        && s[23] == 'Z'
    &&& is_digit(s[0]) && is_digit(s[1]) && is_digit(s[2]) && is_digit(s[3])
    &&& is_digit(s[5]) && is_digit(s[6])
    &&& is_digit(s[8]) && is_digit(s[9])
    &&& is_digit(s[11]) && is_digit(s[12])
    &&& is_digit(s[14]) && is_digit(s[15])
    &&& is_digit(s[17]) && is_digit(s[18])
    &&& is_digit(s[20]) && is_digit(s[21]) && is_digit(s[22])
}

/// Fields read from a shaped timestamp text.
pub open spec fn date_of_text(s: Seq<char>) -> Date {
    Date {
        year: (digit_val(s[0]) * 1000 + digit_val(s[1]) * 100 + digit_val(s[2]) * 10 + digit_val(
            s[3],
        )) as u16,
        month: (digit_val(s[5]) * 10 + digit_val(s[6])) as u8,
        day: (digit_val(s[8]) * 10 + digit_val(s[9])) as u8,
        hour: (digit_val(s[11]) * 10 + digit_val(s[12])) as u8,
        minute: (digit_val(s[14]) * 10 + digit_val(s[15])) as u8,
        second: (digit_val(s[17]) * 10 + digit_val(s[18])) as u8,
        milli: (digit_val(s[20]) * 100 + digit_val(s[21]) * 10 + digit_val(s[22])) as u16,
    }
}

/// Parse of a date text: the canonical shape naming a valid instant, or
/// nothing — a malformed date is fatal to a load, never defaulted.
pub open spec fn spec_parse_date(s: Seq<char>) -> Option<Date> {
    if rfc3339_shape(s) && date_valid(date_of_text(s)) {
        Some(date_of_text(s))
    } else {
        Option::None
    }
}

/// Pushes the two decimal digits of `n` below one hundred.
fn push_2(out: &mut String, n: u8)
    requires
        n < 100,
    ensures
        final(out)@ == old(out)@.push(digit_char(n as int / 10)).push(digit_char(n as int % 10)),
{
    push_char(out, crate::money::digit_to_char(n / 10));
    push_char(out, crate::money::digit_to_char(n % 10));
}

/// Appends the calendar half of the canonical text.
fn push_ymd(s: &mut String, d: &Date)
    requires
        date_valid(*d),
    ensures
        final(s)@ == old(s)@ + rfc3339_string(*d).take(10),
{
    let y = d.year;
    push_char(s, crate::money::digit_to_char((y / 1000) as u8));
    push_char(s, crate::money::digit_to_char(((y / 100) % 10) as u8));
    push_char(s, crate::money::digit_to_char(((y / 10) % 10) as u8));
    push_char(s, crate::money::digit_to_char((y % 10) as u8));
    push_char(s, '-');
    push_2(s, d.month);
    push_char(s, '-');
    push_2(s, d.day);
    assert(s@ =~= old(s)@ + rfc3339_string(*d).take(10));
}

/// Appends the time half of the canonical text.
fn push_hms(s: &mut String, d: &Date)
    requires
        date_valid(*d),
    ensures
        final(s)@ == old(s)@ + rfc3339_string(*d).skip(10),
{
    push_char(s, 'T');
    push_2(s, d.hour);
    push_char(s, ':');
    push_2(s, d.minute);
    push_char(s, ':');
    push_2(s, d.second);
    push_char(s, '.');
    let ms = d.milli;
    push_char(s, crate::money::digit_to_char((ms / 100) as u8));
    push_char(s, crate::money::digit_to_char(((ms / 10) % 10) as u8));
    push_char(s, crate::money::digit_to_char((ms % 10) as u8));
    push_char(s, 'Z');
    assert(s@ =~= old(s)@ + rfc3339_string(*d).skip(10));
}

/// Renders a date as its canonical RFC3339 millisecond text.
pub fn date_to_rfc3339(d: &Date) -> (r: String)
    requires
        date_valid(*d),
    ensures
        r@ == rfc3339_string(*d),
{
    let mut s = String::new();
    push_ymd(&mut s, d);
    push_hms(&mut s, d);
    assert(s@ =~= rfc3339_string(*d));
    s
}

/// Reads the digit at `i`; `None` when it is not a digit.
fn read_digit(s: &str, i: usize) -> (r: Option<u32>)
    requires
        i < s@.len(),
    ensures
        match r {
            Some(v) => is_digit(s@[i as int]) && v == digit_val(s@[i as int]) && v <= 9,
            None => !is_digit(s@[i as int]),
        },
{
    let c = s.get_char(i);
    let u = c as u32;
    if 48 <= u && u <= 57 {
        Some(u - 48)
    } else {
        None
    }
}

/// Checks that the character at `i` is `c`.
fn check_char(s: &str, i: usize, c: char) -> (r: bool)
    requires
        i < s@.len(),
    ensures
        r == (s@[i as int] == c),
{
    s.get_char(i) == c
}

/// Parses a canonical RFC3339 millisecond timestamp; `None` when the
/// text has another shape or names no valid instant.
pub fn parse_date(s: &str) -> (r: Option<Date>)
    ensures
        r == spec_parse_date(s@),
        r is Some ==> date_valid(r->Some_0),
{
    if s.unicode_len() != 24 {
        return Option::None;
    }
    if !(check_char(s, 4, '-') && check_char(s, 7, '-') && check_char(s, 10, 'T') && check_char(
        s,
        13,
        ':',
    ) && check_char(s, 16, ':') && check_char(s, 19, '.') && check_char(s, 23, 'Z')) {
        return Option::None;
    }
    let d0 = read_digit(s, 0);
    let d1 = read_digit(s, 1);
    let d2 = read_digit(s, 2);
    let d3 = read_digit(s, 3);
    let d5 = read_digit(s, 5);
    let d6 = read_digit(s, 6);
    let d8 = read_digit(s, 8);
    let d9 = read_digit(s, 9);
    let d11 = read_digit(s, 11);
    let d12 = read_digit(s, 12);
    let d14 = read_digit(s, 14);
    let d15 = read_digit(s, 15);
    let d17 = read_digit(s, 17);
    let d18 = read_digit(s, 18);
    let d20 = read_digit(s, 20);
    let d21 = read_digit(s, 21);
    let d22 = read_digit(s, 22);
    match (d0, d1, d2, d3, d5, d6, d8, d9, d11, d12, d14, d15, d17, d18, d20, d21, d22) {
        (
            Some(v0),
            Some(v1),
            Some(v2),
            Some(v3),
            Some(v5),
            Some(v6),
            Some(v8),
            Some(v9),
            Some(v11),
            Some(v12),
            Some(v14),
            Some(v15),
            Some(v17),
            Some(v18),
            Some(v20),
            Some(v21),
            Some(v22),
        ) => {
            let d = Date {
                year: (v0 * 1000 + v1 * 100 + v2 * 10 + v3) as u16,
                month: (v5 * 10 + v6) as u8,
                day: (v8 * 10 + v9) as u8,
                hour: (v11 * 10 + v12) as u8,
                minute: (v14 * 10 + v15) as u8,
                second: (v17 * 10 + v18) as u8,
                milli: (v20 * 100 + v21 * 10 + v22) as u16,
            };
            if date_valid_exec(&d) {
                Some(d)
            } else {
                Option::None
            }
        },
        _ => Option::None,
    }
}

/// Runtime check of calendar validity.
pub fn date_valid_exec(d: &Date) -> (r: bool)
    ensures
        r == date_valid(*d),
{
    let dim = days_in_month_exec(d.year, d.month);
    1 <= d.year && d.year <= 9999 && 1 <= d.month && d.month <= 12 && 1 <= d.day && d.day <= dim
        && d.hour <= 23 && d.minute <= 59 && d.second <= 59 && d.milli <= 999
}

/// Days in a month, for the validity check.
pub fn days_in_month_exec(y: u16, m: u8) -> (r: u8)
    ensures
        r == days_in_month(y as int, m as int),
{
    if m == 1 || m == 3 || m == 5 || m == 7 || m == 8 || m == 10 || m == 12 {
        31
    } else if m == 4 || m == 6 || m == 9 || m == 11 {
        30
    } else if y % 4 == 0 && (y % 100 != 0 || y % 400 == 0) {
        29
    } else {
        28
    }
}

/// Midnight on the first day of the given month: the date every
/// carry-forward transaction of a new period bears.
pub fn first_of_month(year: u16, month: u8) -> (r: Date)
    requires
        1 <= year <= 9999,
        1 <= month <= 12,
    ensures
        r == (Date { year, month, day: 1, hour: 0, minute: 0, second: 0, milli: 0 }),
        date_valid(r),
{
    Date { year, month, day: 1, hour: 0, minute: 0, second: 0, milli: 0 }
}

/// The display form of a date, month/day/year.
pub open spec fn mdy_string(d: Date) -> Seq<char> {
    let y = d.year as int;
    let mo = d.month as int;
    let da = d.day as int;
    seq![
        digit_char(mo / 10),
        digit_char(mo % 10),
        '/',
        digit_char(da / 10),
        digit_char(da % 10),
        '/',
        digit_char(y / 1000),
        digit_char((y / 100) % 10),
        digit_char((y / 10) % 10),
        digit_char(y % 10),
    ]
}

/// Renders a date for display as month/day/year.
pub fn date_to_mdy(d: &Date) -> (r: String)
    requires
        date_valid(*d),
    ensures
        r@ == mdy_string(*d),
{
    let mut s = String::new();
    push_2(&mut s, d.month);
    push_char(&mut s, '/');
    push_2(&mut s, d.day);
    push_char(&mut s, '/');
    let y = d.year;
    push_char(&mut s, crate::money::digit_to_char((y / 1000) as u8));
    push_char(&mut s, crate::money::digit_to_char(((y / 100) % 10) as u8));
    push_char(&mut s, crate::money::digit_to_char(((y / 10) % 10) as u8));
    push_char(&mut s, crate::money::digit_to_char((y % 10) as u8));
    assert(s@ =~= mdy_string(*d));
    s
}

/// A four-digit value is recomposed from its decimal digits.
proof fn lemma_four_digit_recompose(y: int)
    requires
        0 <= y < 10000,
    ensures
        y == (y / 1000) * 1000 + ((y / 100) % 10) * 100 + ((y / 10) % 10) * 10 + y % 10,
        0 <= y / 1000 < 10,
        0 <= (y / 100) % 10 < 10,
        0 <= (y / 10) % 10 < 10,
        0 <= y % 10 < 10,
{
    assert(y == (y / 1000) * 1000 + ((y / 100) % 10) * 100 + ((y / 10) % 10) * 10 + y % 10)
        by (nonlinear_arith)
        requires
            0 <= y < 10000,
    ;
    assert(0 <= y / 1000 < 10) by (nonlinear_arith)
        requires
            0 <= y < 10000,
    ;
}

/// A three-digit value is recomposed from its decimal digits.
proof fn lemma_three_digit_recompose_date(f: int)
    requires
        0 <= f < 1000,
    ensures
        f == (f / 100) * 100 + ((f / 10) % 10) * 10 + f % 10,
        0 <= f / 100 < 10,
        0 <= (f / 10) % 10 < 10,
        0 <= f % 10 < 10,
{
    assert(f == (f / 100) * 100 + ((f / 10) % 10) * 10 + f % 10) by (nonlinear_arith)
        requires
            0 <= f < 1000,
    ;
    assert(0 <= f / 100 < 10) by (nonlinear_arith)
        requires
            0 <= f < 1000,
    ;
}

/// Every character of a canonical timestamp is a digit or one of the
/// fixed separators; none is a comma or a newline.
pub proof fn lemma_rfc3339_charset(d: Date)
    requires
        date_valid(d),
    ensures
        rfc3339_string(d).len() == 24,
        forall|i: int|
            0 <= i < 24 ==> #[trigger] rfc3339_string(d)[i] != ',' && rfc3339_string(d)[i] != '\n',
{
    let s = rfc3339_string(d);
    lemma_four_digit_recompose(d.year as int);
    lemma_three_digit_recompose_date(d.milli as int);
    assert forall|i: int| 0 <= i < 24 implies #[trigger] s[i] != ',' && s[i] != '\n' by {
        if i == 4 || i == 7 || i == 10 || i == 13 || i == 16 || i == 19 || i == 23 {
        } else {
            digit_positions_are_digits(d, i);
        }
    }
}

/// Every non-separator position of the canonical text holds a digit.
proof fn digit_positions_are_digits(d: Date, i: int)
    requires
        date_valid(d),
        0 <= i < 24,
        i != 4 && i != 7 && i != 10 && i != 13 && i != 16 && i != 19 && i != 23,
    ensures
        is_digit(rfc3339_string(d)[i]),
{
    lemma_four_digit_recompose(d.year as int);
    lemma_three_digit_recompose_date(d.milli as int);
    let y = d.year as int;
    let ms = d.milli as int;
    lemma_digit_char_val(y / 1000);
    lemma_digit_char_val((y / 100) % 10);
    lemma_digit_char_val((y / 10) % 10);
    lemma_digit_char_val(y % 10);
    lemma_digit_char_val(d.month as int / 10);
    lemma_digit_char_val(d.month as int % 10);
    lemma_digit_char_val(d.day as int / 10);
    lemma_digit_char_val(d.day as int % 10);
    lemma_digit_char_val(d.hour as int / 10);
    lemma_digit_char_val(d.hour as int % 10);
    lemma_digit_char_val(d.minute as int / 10);
    lemma_digit_char_val(d.minute as int % 10);
    lemma_digit_char_val(d.second as int / 10);
    lemma_digit_char_val(d.second as int % 10);
    lemma_digit_char_val(ms / 100);
    lemma_digit_char_val((ms / 10) % 10);
    lemma_digit_char_val(ms % 10);
}

/// Round trip: the canonical text of a valid date parses back to
/// exactly that date.
pub proof fn lemma_date_round_trip(d: Date)
    requires
        date_valid(d),
    ensures
        spec_parse_date(rfc3339_string(d)) == Some(d),
{
    let s = rfc3339_string(d);
    let y = d.year as int;
    let ms = d.milli as int;
    lemma_four_digit_recompose(y);
    lemma_three_digit_recompose_date(ms);
    lemma_digit_char_val(y / 1000);
    lemma_digit_char_val((y / 100) % 10);
    lemma_digit_char_val((y / 10) % 10);
    lemma_digit_char_val(y % 10);
    lemma_digit_char_val(d.month as int / 10);
    lemma_digit_char_val(d.month as int % 10);
    lemma_digit_char_val(d.day as int / 10);
    lemma_digit_char_val(d.day as int % 10);
    lemma_digit_char_val(d.hour as int / 10);
    lemma_digit_char_val(d.hour as int % 10);
    lemma_digit_char_val(d.minute as int / 10);
    lemma_digit_char_val(d.minute as int % 10);
    lemma_digit_char_val(d.second as int / 10);
    lemma_digit_char_val(d.second as int % 10);
    lemma_digit_char_val(ms / 100);
    lemma_digit_char_val((ms / 10) % 10);
    lemma_digit_char_val(ms % 10);
    assert(rfc3339_shape(s));
    let p = date_of_text(s);
    assert(p.year == d.year);
    assert(p.month == d.month);
    assert(p.day == d.day);
    assert(p.hour == d.hour);
    assert(p.minute == d.minute);
    assert(p.second == d.second);
    assert(p.milli == d.milli);
    assert(p == d);
}

} // verus!
