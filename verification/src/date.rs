use vstd::prelude::*;

verus! {

/// A calendar date with no time component, kept as plain year, month and day
/// fields. Records carry one, and queries bound an inclusive closed range of
/// them. The textual form is ISO-8601, `YYYY-MM-DD`.
#[derive(Clone, Copy, PartialEq, Eq, Structural, Debug)]
pub struct Date {
    pub year: u32,
    pub month: u32,
    pub day: u32,
}

pub open spec fn is_leap_year(y: int) -> bool {
    y % 4 == 0 && (y % 100 != 0 || y % 400 == 0)
}

pub open spec fn days_in_month(y: int, m: int) -> int {
    if m == 2 {
        if is_leap_year(y) {
            29
        } else {
            28
        }
    } else if m == 4 || m == 6 || m == 9 || m == 11 {
        30
    } else {
        31
    }
}

impl Date {
    /// A valid Gregorian date whose year fits the four-digit textual form.
    pub open spec fn valid(self) -> bool {
        &&& 1 <= self.year <= 9999
        &&& 1 <= self.month <= 12
        &&& 1 <= self.day <= days_in_month(self.year as int, self.month as int)
    }

    /// Chronological order: `self` falls on or before `other`.
    pub open spec fn le_spec(self, other: Date) -> bool {
        if self.year != other.year {
            self.year < other.year
        } else if self.month != other.month {
            self.month < other.month
        } else {
            self.day <= other.day
        }
    }

    /// Builds a date, accepting exactly the valid calendar dates.
    pub fn new(year: u32, month: u32, day: u32) -> (r: Option<Date>)
        ensures
            ({
                let d = (Date { year, month, day });
                r == if d.valid() {
                    Some(d)
                } else {
                    None::<Date>
                }
            }),
    {
        if 1 <= year && year <= 9999 && 1 <= month && month <= 12 && 1 <= day && day
            <= days_in_month_exec(year, month) {
            Some(Date { year, month, day })
        } else {
            None
        }
    }

    pub fn le(&self, other: &Date) -> (r: bool)
        ensures
            r == self.le_spec(*other),
    {
        if self.year != other.year {
            self.year < other.year
        } else if self.month != other.month {
            self.month < other.month
        } else {
            self.day <= other.day
        }
    }
}

fn days_in_month_exec(y: u32, m: u32) -> (r: u32)
    requires
        1 <= m <= 12,
    ensures
        r == days_in_month(y as int, m as int),
{
    if m == 2 {
        if y % 4 == 0 && (y % 100 != 0 || y % 400 == 0) {
            29
        } else {
            28
        }
    } else if m == 4 || m == 6 || m == 9 || m == 11 {
        30
    } else {
        31
    }
}

pub open spec fn is_digit(b: u8) -> bool {
    48 <= b <= 57
}

pub open spec fn digit_val(b: u8) -> int {
    b - 48
}

pub open spec fn digit_byte(v: int) -> u8 {
    (48 + v) as u8
}

/// The shape of ISO-8601 date text: ten bytes, digits in the year, month and
/// day positions, `-` separators between them.
pub open spec fn date_text_wf(s: Seq<u8>) -> bool {
    &&& s.len() == 10
    &&& is_digit(s[0]) && is_digit(s[1]) && is_digit(s[2]) && is_digit(s[3])
    &&& s[4] == 45u8
    &&& is_digit(s[5]) && is_digit(s[6])
    &&& s[7] == 45u8
    &&& is_digit(s[8]) && is_digit(s[9])
}

/// What parsing ISO-8601 date text yields: the date read off the digits when
/// the text is well shaped and names a valid calendar date, nothing otherwise.
pub open spec fn parse_date_spec(s: Seq<u8>) -> Option<Date> {
    if date_text_wf(s) {
        let d = (Date {
            year: (digit_val(s[0]) * 1000 + digit_val(s[1]) * 100 + digit_val(s[2]) * 10
                + digit_val(s[3])) as u32,
            month: (digit_val(s[5]) * 10 + digit_val(s[6])) as u32,
            day: (digit_val(s[8]) * 10 + digit_val(s[9])) as u32,
        });
        if d.valid() {
            Some(d)
        } else {
            None
        }
    } else {
        None
    }
}

/// The canonical ISO-8601 bytes of a date.
pub open spec fn date_bytes_spec(d: Date) -> Seq<u8> {
    seq![
        digit_byte(d.year as int / 1000),
        digit_byte(d.year as int / 100 % 10),
        digit_byte(d.year as int / 10 % 10),
        digit_byte(d.year as int % 10),
        45u8,
        digit_byte(d.month as int / 10),
        digit_byte(d.month as int % 10),
        45u8,
        digit_byte(d.day as int / 10),
        digit_byte(d.day as int % 10),
    ]
}

/// Parses ISO-8601 date text, accepting exactly the valid calendar dates.
pub fn parse_date(s: &[u8]) -> (r: Option<Date>)
    ensures
        r == parse_date_spec(s@),
{
    if s.len() != 10 {
        return None;
    }
    let sep_ok: bool = s[4] == 45 && s[7] == 45;
    if !sep_ok {
        return None;
    }
    let digits_ok: bool = is_digit_exec(s[0]) && is_digit_exec(s[1]) && is_digit_exec(s[2])
        && is_digit_exec(s[3]) && is_digit_exec(s[5]) && is_digit_exec(s[6]) && is_digit_exec(s[8])
        && is_digit_exec(s[9]);
    if !digits_ok {
        return None;
    }
    let year: u32 = (s[0] - 48) as u32 * 1000 + (s[1] - 48) as u32 * 100 + (s[2] - 48) as u32 * 10
        + (s[3] - 48) as u32;
    let month: u32 = (s[5] - 48) as u32 * 10 + (s[6] - 48) as u32;
    let day: u32 = (s[8] - 48) as u32 * 10 + (s[9] - 48) as u32;
    Date::new(year, month, day)
}

fn is_digit_exec(b: u8) -> (r: bool)
    ensures
        r == is_digit(b),
{
    48 <= b && b <= 57
}

/// Splitting a number below ten thousand into its four decimal digits and
/// reassembling them gives the number back.
proof fn lemma_four_digits(y: int)
    requires
        0 <= y <= 9999,
    ensures
        (y / 1000) * 1000 + (y / 100 % 10) * 100 + (y / 10 % 10) * 10 + y % 10 == y,
        0 <= y / 1000 <= 9,
        0 <= y / 100 % 10 <= 9,
        0 <= y / 10 % 10 <= 9,
        0 <= y % 10 <= 9,
{
}

/// Splitting a number below one hundred into its two decimal digits and
/// reassembling them gives the number back.
proof fn lemma_two_digits(v: int)
    requires
        0 <= v <= 99,
    ensures
        (v / 10) * 10 + v % 10 == v,
        0 <= v / 10 <= 9,
        0 <= v % 10 <= 9,
{
}

/// The canonical bytes of a valid date parse back to that date.
pub proof fn lemma_date_bytes_parse(d: Date)
    requires
        d.valid(),
    ensures
        parse_date_spec(date_bytes_spec(d)) == Some(d),
{
    let s = date_bytes_spec(d);
    lemma_four_digits(d.year as int);
    lemma_two_digits(d.month as int);
    lemma_two_digits(d.day as int);
    assert(date_text_wf(s));
    assert(parse_date_spec(s) == Some(d));
}

/// Writes the canonical ISO-8601 bytes of a valid date; parsing them yields
/// the date back.
pub fn format_date(d: &Date) -> (r: Vec<u8>)
    requires
        d.valid(),
    ensures
        r@ == date_bytes_spec(*d),
        parse_date_spec(r@) == Some(*d),
{
    let mut out: Vec<u8> = Vec::new();
    out.push((d.year / 1000) as u8 + 48);
    out.push((d.year / 100 % 10) as u8 + 48);
    out.push((d.year / 10 % 10) as u8 + 48);
    out.push((d.year % 10) as u8 + 48);
    out.push(45);
    out.push((d.month / 10) as u8 + 48);
    out.push((d.month % 10) as u8 + 48);
    out.push(45);
    out.push((d.day / 10) as u8 + 48);
    out.push((d.day % 10) as u8 + 48);
    proof {
        lemma_four_digits(d.year as int);
        lemma_two_digits(d.month as int);
        lemma_two_digits(d.day as int);
        assert(out@ =~= date_bytes_spec(*d));
        lemma_date_bytes_parse(*d);
    }
    out
}

} // verus!
