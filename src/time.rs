//! Calendar and time values: parsers over the raw bytes of a literal, and the
//! serializers that give back the text each value was read from.
use vstd::prelude::*;
use crate::error::{ast_error, AstElement, Error};
use vstd::slice::slice_subrange;

verus! {

pub open spec fn is_digit(b: u8) -> bool {
    48 <= b && b <= 57
}

pub open spec fn all_digits(s: Seq<u8>) -> bool {
    forall|i: int| 0 <= i < s.len() ==> is_digit(#[trigger] s[i])
}

/// The number that a string of decimal digits denotes.
pub open spec fn digits_value(s: Seq<u8>) -> int
    decreases s.len(),
{
    if s.len() == 0 {
        0
    } else {
        digits_value(s.drop_last()) * 10 + (s.last() - 48)
    }
}

/// The value of the `n` bytes of `s` from `i` on, read as decimal digits.
pub open spec fn field(s: Seq<u8>, i: int, n: int) -> int {
    digits_value(s.subrange(i, i + n))
}

/// The `n` bytes of `s` from `i` on are decimal digits whose value lies in `min..=max`.
pub open spec fn field_ok(s: Seq<u8>, i: int, n: int, min: int, max: int) -> bool {
    &&& 0 <= i
    &&& 0 <= n
    &&& i + n <= s.len()
    &&& all_digits(s.subrange(i, i + n))
    &&& min <= field(s, i, n) <= max
}

pub open spec fn pow10(n: nat) -> nat
    decreases n,
{
    if n == 0 {
        1
    } else {
        10 * pow10((n - 1) as nat)
    }
}

pub open spec fn digit_char(d: int) -> char {
    ((d + 48) as u8) as char
}

/// Decimal text of `v`, padded with leading zeros to at least `width` digits.
pub open spec fn decimal_text(v: nat, width: nat) -> Seq<char>
    decreases v + width,
{
    if v < 10 && width <= 1 {
        seq![digit_char(v as int)]
    } else {
        decimal_text(v / 10, if width > 0 { (width - 1) as nat } else { 0 }) + seq![
            digit_char((v % 10) as int),
        ]
    }
}

/// The bytes of an ASCII literal, read as characters.
pub open spec fn chars_of(s: Seq<u8>) -> Seq<char> {
    s.map_values(|b: u8| b as char)
}

proof fn lemma_digits_push(s: Seq<u8>, i: int, j: int)
    requires
        0 <= i <= j < s.len(),
    ensures
        digits_value(s.subrange(i, j + 1)) == digits_value(s.subrange(i, j)) * 10 + (s[j] - 48),
{
    assert(s.subrange(i, j + 1).drop_last() =~= s.subrange(i, j));
}

proof fn lemma_digits_bound(s: Seq<u8>)
    requires
        all_digits(s),
    ensures
        0 <= digits_value(s) < pow10(s.len()),
    decreases s.len(),
{
    if s.len() > 0 {
        let t = s.drop_last();
        assert(all_digits(t)) by {
            assert forall|i: int| 0 <= i < t.len() implies is_digit(#[trigger] t[i]) by {
                assert(t[i] == s[i]);
            }
        }
        lemma_digits_bound(t);
        assert(is_digit(s[s.len() - 1]));
    }
}

/// Reads the decimal digits `value[start..end]` and checks the result against `min..=max`.
fn parse_base_10_integer(
    value: &[u8],
    start: usize,
    end: usize,
    min: u64,
    max: u64,
    element: &AstElement<&[u8]>,
) -> (r: Result<u64, Error>)
    requires
        start <= end <= value@.len(),
        end - start <= 4,
    ensures
        r.is_ok() <==> field_ok(value@, start as int, end - start, min as int, max as int),
        r matches Ok(v) ==> v == field(value@, start as int, end - start),
        r matches Err(e) ==> e.is_ast() && e.loc == element.loc,
{
    let mut acc: u64 = 0;
    let mut i: usize = start;
    while i < end
        invariant
            start <= i <= end <= value@.len(),
            end - start <= 4,
            all_digits(value@.subrange(start as int, i as int)),
            acc == digits_value(value@.subrange(start as int, i as int)),
            acc < pow10((i - start) as nat),
        decreases end - i,
    {
        let digit = value[i];
        if !(48 <= digit && digit <= 57) {
            proof {
                let sub = value@.subrange(start as int, end as int);
                assert(sub[i - start] == digit);
            }
            return Err(ast_error("invalid base-10 digit", element.loc));
        }
        proof {
            lemma_digits_push(value@, start as int, i as int);
            reveal_with_fuel(pow10, 5);
            assert(pow10((i - start) as nat) <= 1000);
            let sub = value@.subrange(start as int, i + 1);
            assert forall|k: int| 0 <= k < sub.len() implies is_digit(#[trigger] sub[k]) by {
                if k < i - start {
                    assert(sub[k] == value@.subrange(start as int, i as int)[k]);
                }
            }
        }
        acc = acc * 10 + (digit - 48) as u64;
        i = i + 1;
    }
    if acc < min || acc > max {
        return Err(ast_error("value out of bounds", element.loc));
    }
    Ok(acc)
}

/// Appends one character.
///
/// Relies on `String::push`, which appends the character to the end of the string.
#[verifier::external_body]
fn push_char(s: &mut String, c: char)
    ensures
        final(s)@ == old(s)@.push(c),
{
    s.push(c)
}

fn push_decimal(s: &mut String, v: u64, width: u64)
    ensures
        final(s)@ == old(s)@ + decimal_text(v as nat, width as nat),
    decreases v + width,
{
    if v < 10 && width <= 1 {
        push_char(s, ((v + 48) as u8) as char);
    } else {
        let w = if width > 0 { width - 1 } else { 0 };
        push_decimal(s, v / 10, w);
        push_char(s, (((v % 10) + 48) as u8) as char);
        assert(final(s)@ =~= old(s)@ + decimal_text(v as nat, width as nat));
    }
}


#[derive(Debug, Clone, Copy, PartialEq, Eq)]
pub enum UTCTimeZoneSign {
    Plus,
    Minus,
}

#[derive(Debug, Clone, Copy, PartialEq, Eq)]
pub enum UTCTimeZone {
    Z,
    Offset { sign: UTCTimeZoneSign, hour: u8, minute: u8 },
}

#[derive(Debug, Clone, Copy, PartialEq, Eq)]
pub struct UTCTime {
    pub year: u8,
    pub month: u8,
    pub day: u8,
    pub hour: u8,
    pub minute: u8,
    pub second: Option<u8>,
    pub tz: UTCTimeZone,
}

/// Length of the date-and-time part of a UTCTime literal, in front of its zone.
pub open spec fn utc_body_len(s: Seq<u8>) -> int {
    if s.last() == 90u8 {
        s.len() - 1
    } else {
        s.len() - 5
    }
}

/// `s` is a UTCTime literal `YYMMDDhhmm[ss](Z | (+|-)HHMM)` with every field in range.
pub open spec fn is_utc_time(s: Seq<u8>) -> bool {
    let n = s.len() as int;
    let b = utc_body_len(s);
    &&& n >= 11
    &&& (s.last() == 90u8 || ((s[n - 5] == 43u8 || s[n - 5] == 45u8) && field_ok(s, n - 4, 2, 0, 23)
        && field_ok(s, n - 2, 2, 0, 59)))
    &&& (b == 10 || b == 12)
    &&& field_ok(s, 0, 2, 0, 99)
    &&& field_ok(s, 2, 2, 1, 12)
    &&& field_ok(s, 4, 2, 1, 31)
    &&& field_ok(s, 6, 2, 0, 24)
    &&& field_ok(s, 8, 2, 0, 59)
    &&& (b == 12 ==> field_ok(s, 10, 2, 0, 59))
}

/// The value that a UTCTime literal denotes.
pub open spec fn utc_time_of(s: Seq<u8>) -> UTCTime {
    let n = s.len() as int;
    UTCTime {
        year: field(s, 0, 2) as u8,
        month: field(s, 2, 2) as u8,
        day: field(s, 4, 2) as u8,
        hour: field(s, 6, 2) as u8,
        minute: field(s, 8, 2) as u8,
        second: if utc_body_len(s) == 12 {
            Some(field(s, 10, 2) as u8)
        } else {
            None
        },
        tz: if s.last() == 90u8 {
            UTCTimeZone::Z
        } else {
            UTCTimeZone::Offset {
                sign: if s[n - 5] == 43u8 {
                    UTCTimeZoneSign::Plus
                } else {
                    UTCTimeZoneSign::Minus
                },
                hour: field(s, n - 4, 2) as u8,
                minute: field(s, n - 2, 2) as u8,
            }
        },
    }
}

/// The canonical text of a UTCTime value.
pub open spec fn utc_time_text(t: UTCTime) -> Seq<char> {
    decimal_text(t.year as nat, 2) + decimal_text(t.month as nat, 2) + decimal_text(t.day as nat, 2)
        + decimal_text(t.hour as nat, 2) + decimal_text(t.minute as nat, 2) + match t.second {
        Some(sec) => decimal_text(sec as nat, 2),
        None => Seq::empty(),
    } + match t.tz {
        UTCTimeZone::Z => seq!['Z'],
        UTCTimeZone::Offset { sign, hour, minute } => seq![
            if sign == UTCTimeZoneSign::Plus {
                '+'
            } else {
                '-'
            },
        ] + decimal_text(hour as nat, 2) + decimal_text(minute as nat, 2),
    }
}

impl UTCTime {
    /// Parses `YYMMDDhhmm[ss](Z | (+|-)HHMM)`.
    pub fn parse(str: &AstElement<&[u8]>) -> (r: Result<UTCTime, Error>)
        ensures
            r.is_ok() <==> is_utc_time(str.element@),
            r matches Ok(t) ==> t == utc_time_of(str.element@),
            r matches Err(e) ==> e.is_ast() && e.loc == str.loc,
    {
        let value: &[u8] = str.element;
        let n = value.len();
        if n < 11 {
            return Err(ast_error("UTCTime value is too short", str.loc));
        }
        let body_len: usize;
        let tz: UTCTimeZone;
        if value[n - 1] == 90u8 {
            body_len = n - 1;
            tz = UTCTimeZone::Z;
        } else {
            let tz_sign = value[n - 5];
            if tz_sign == 43u8 || tz_sign == 45u8 {
                let hour = parse_base_10_integer(value, n - 4, n - 2, 0, 23, str)?;
                let minute = parse_base_10_integer(value, n - 2, n, 0, 59, str)?;
                body_len = n - 5;
                tz = UTCTimeZone::Offset {
                    sign: if tz_sign == 43u8 {
                        UTCTimeZoneSign::Plus
                    } else {
                        UTCTimeZoneSign::Minus
                    },
                    hour: hour as u8,
                    minute: minute as u8,
                };
            } else {
                return Err(ast_error("UTCTime time zone is malformed", str.loc));
            }
        }
        if body_len != 10 && body_len != 12 {
            return Err(ast_error("UTCTime time zone is malformed (invalid length)", str.loc));
        }
        let year = parse_base_10_integer(value, 0, 2, 0, 99, str)?;
        let month = parse_base_10_integer(value, 2, 4, 1, 12, str)?;
        let day = parse_base_10_integer(value, 4, 6, 1, 31, str)?;
        let hour = parse_base_10_integer(value, 6, 8, 0, 24, str)?;
        let minute = parse_base_10_integer(value, 8, 10, 0, 59, str)?;
        let second = if body_len == 12 {
            Some(parse_base_10_integer(value, 10, 12, 0, 59, str)? as u8)
        } else {
            None
        };
        Ok(UTCTime {
            year: year as u8,
            month: month as u8,
            day: day as u8,
            hour: hour as u8,
            minute: minute as u8,
            second,
            tz,
        })
    }

    /// The canonical text of the value, from which `parse` reads it back.
    pub fn to_ber_string(&self) -> (r: String)
        ensures
            r@ == utc_time_text(*self),
    {
        let mut s = String::new();
        push_decimal(&mut s, self.year as u64, 2);
        push_decimal(&mut s, self.month as u64, 2);
        push_decimal(&mut s, self.day as u64, 2);
        push_decimal(&mut s, self.hour as u64, 2);
        push_decimal(&mut s, self.minute as u64, 2);
        if let Some(second) = self.second {
            push_decimal(&mut s, second as u64, 2);
        }
        match self.tz {
            UTCTimeZone::Z => push_char(&mut s, 'Z'),
            UTCTimeZone::Offset { sign, hour, minute } => {
                push_char(
                    &mut s,
                    match sign {
                        UTCTimeZoneSign::Plus => '+',
                        UTCTimeZoneSign::Minus => '-',
                    },
                );
                push_decimal(&mut s, hour as u64, 2);
                push_decimal(&mut s, minute as u64, 2);
            },
        }
        assert(s@ =~= utc_time_text(*self));
        s
    }
}


#[derive(Debug, Clone, Copy, PartialEq, Eq)]
pub struct Date {
    pub year: u16,
    pub month: u8,
    pub day: u8,
}

/// `s` is a DATE literal `YYYY-MM-DD` with every field in range.
pub open spec fn is_date(s: Seq<u8>) -> bool {
    &&& s.len() == 10
    &&& s[4] == 45u8
    &&& s[7] == 45u8
    &&& field_ok(s, 0, 4, 0, 9999)
    &&& field_ok(s, 5, 2, 1, 12)
    &&& field_ok(s, 8, 2, 1, 31)
}

pub open spec fn date_of(s: Seq<u8>) -> Date {
    Date { year: field(s, 0, 4) as u16, month: field(s, 5, 2) as u8, day: field(s, 8, 2) as u8 }
}

pub open spec fn date_text(d: Date) -> Seq<char> {
    decimal_text(d.year as nat, 4) + seq!['-'] + decimal_text(d.month as nat, 2) + seq!['-']
        + decimal_text(d.day as nat, 2)
}

impl Date {
    /// Parses `YYYY-MM-DD`.
    pub fn parse(str: &AstElement<&[u8]>) -> (r: Result<Date, Error>)
        ensures
            r.is_ok() <==> is_date(str.element@),
            r matches Ok(d) ==> d == date_of(str.element@),
            r matches Err(e) ==> e.is_ast() && e.loc == str.loc,
    {
        let value: &[u8] = str.element;
        if value.len() != 10 {
            return Err(ast_error("DATE is malformed (invalid length)", str.loc));
        }
        if value[4] != 45u8 {
            return Err(ast_error("DATE is malformed (expecting 4-digit year)", str.loc));
        }
        if value[7] != 45u8 {
            return Err(ast_error("DATE is malformed (expecting 2-digit month)", str.loc));
        }
        let year = parse_base_10_integer(value, 0, 4, 0, 9999, str)?;
        let month = parse_base_10_integer(value, 5, 7, 1, 12, str)?;
        let day = parse_base_10_integer(value, 8, 10, 1, 31, str)?;
        Ok(Date { year: year as u16, month: month as u8, day: day as u8 })
    }

    /// The canonical text of the value, from which `parse` reads it back.
    pub fn to_ber_string(&self) -> (r: String)
        ensures
            r@ == date_text(*self),
    {
        let mut s = String::new();
        push_decimal(&mut s, self.year as u64, 4);
        push_char(&mut s, '-');
        push_decimal(&mut s, self.month as u64, 2);
        push_char(&mut s, '-');
        push_decimal(&mut s, self.day as u64, 2);
        assert(s@ =~= date_text(*self));
        s
    }
}

#[derive(Debug, Clone, Copy, PartialEq, Eq)]
pub struct TimeOfDay {
    pub hour: u8,
    pub minute: u8,
    pub second: u8,
}

/// `s` is a TIME-OF-DAY literal `HH:MM:SS` with every field in range.
pub open spec fn is_time_of_day(s: Seq<u8>) -> bool {
    &&& s.len() == 8
    &&& s[2] == 58u8
    &&& s[5] == 58u8
    &&& field_ok(s, 0, 2, 0, 23)
    &&& field_ok(s, 3, 2, 0, 59)
    &&& field_ok(s, 6, 2, 0, 59)
}

pub open spec fn time_of_day_of(s: Seq<u8>) -> TimeOfDay {
    TimeOfDay {
        hour: field(s, 0, 2) as u8,
        minute: field(s, 3, 2) as u8,
        second: field(s, 6, 2) as u8,
    }
}

pub open spec fn time_of_day_text(t: TimeOfDay) -> Seq<char> {
    decimal_text(t.hour as nat, 2) + seq![':'] + decimal_text(t.minute as nat, 2) + seq![':']
        + decimal_text(t.second as nat, 2)
}

impl TimeOfDay {
    /// Parses `HH:MM:SS`.
    pub fn parse(str: &AstElement<&[u8]>) -> (r: Result<TimeOfDay, Error>)
        ensures
            r.is_ok() <==> is_time_of_day(str.element@),
            r matches Ok(t) ==> t == time_of_day_of(str.element@),
            r matches Err(e) ==> e.is_ast() && e.loc == str.loc,
    {
        let value: &[u8] = str.element;
        if value.len() != 8 {
            return Err(ast_error("TIME-OF-DAY is malformed (invalid length)", str.loc));
        }
        if value[2] != 58u8 {
            return Err(ast_error("TIME-OF-DAY is malformed (expecting 2-digit hour)", str.loc));
        }
        if value[5] != 58u8 {
            return Err(ast_error("TIME-OF-DAY is malformed (expecting 2-digit minute)", str.loc));
        }
        let hour = parse_base_10_integer(value, 0, 2, 0, 23, str)?;
        let minute = parse_base_10_integer(value, 3, 5, 0, 59, str)?;
        let second = parse_base_10_integer(value, 6, 8, 0, 59, str)?;
        Ok(TimeOfDay { hour: hour as u8, minute: minute as u8, second: second as u8 })
    }

    /// The canonical text of the value, from which `parse` reads it back.
    pub fn to_ber_string(&self) -> (r: String)
        ensures
            r@ == time_of_day_text(*self),
    {
        let mut s = String::new();
        push_decimal(&mut s, self.hour as u64, 2);
        push_char(&mut s, ':');
        push_decimal(&mut s, self.minute as u64, 2);
        push_char(&mut s, ':');
        push_decimal(&mut s, self.second as u64, 2);
        assert(s@ =~= time_of_day_text(*self));
        s
    }
}

#[derive(Debug, Clone, Copy, PartialEq, Eq)]
pub struct DateTime {
    pub date: Date,
    pub time_of_day: TimeOfDay,
}

/// `s` is a DATE-TIME literal `YYYY-MM-DDTHH:MM:SS` with every field in range.
pub open spec fn is_date_time(s: Seq<u8>) -> bool {
    &&& s.len() == 19
    &&& s[10] == 84u8
    &&& is_date(s.subrange(0, 10))
    &&& is_time_of_day(s.subrange(11, 19))
}

pub open spec fn date_time_of(s: Seq<u8>) -> DateTime {
    DateTime { date: date_of(s.subrange(0, 10)), time_of_day: time_of_day_of(s.subrange(11, 19)) }
}

pub open spec fn date_time_text(d: DateTime) -> Seq<char> {
    date_text(d.date) + seq!['T'] + time_of_day_text(d.time_of_day)
}

impl DateTime {
    /// Parses `YYYY-MM-DDTHH:MM:SS`.
    pub fn parse(str: &AstElement<&[u8]>) -> (r: Result<DateTime, Error>)
        ensures
            r.is_ok() <==> is_date_time(str.element@),
            r matches Ok(d) ==> d == date_time_of(str.element@),
            r matches Err(e) ==> e.is_ast() && e.loc == str.loc,
    {
        let value: &[u8] = str.element;
        if value.len() != 19 {
            return Err(ast_error("DATE-TIME is malformed (invalid length)", str.loc));
        }
        if value[10] != 84u8 {
            return Err(
                ast_error("DATE-TIME is malformed (expecting 'T' separating date and time)", str.loc),
            );
        }
        let date_part = AstElement::new(slice_subrange(value, 0, 10), str.loc);
        let date = Date::parse(&date_part)?;
        let time_part = AstElement::new(slice_subrange(value, 11, 19), str.loc);
        let time_of_day = TimeOfDay::parse(&time_part)?;
        Ok(DateTime { date, time_of_day })
    }

    /// The canonical text of the value, from which `parse` reads it back.
    pub fn to_ber_string(&self) -> (r: String)
        ensures
            r@ == date_time_text(*self),
    {
        let mut s = self.date.to_ber_string();
        push_char(&mut s, 'T');
        let t = self.time_of_day.to_ber_string();
        s.append(t.as_str());
        assert(s@ =~= date_time_text(*self));
        s
    }
}

proof fn lemma_chars_of_subrange(s: Seq<u8>, i: int, j: int)
    requires
        0 <= i <= j <= s.len(),
    ensures
        chars_of(s.subrange(i, j)) == chars_of(s).subrange(i, j),
{
    assert(chars_of(s.subrange(i, j)) =~= chars_of(s).subrange(i, j));
}

/// Digits printed back at their own width give the digits they were read from.
proof fn lemma_decimal_text_of_digits(t: Seq<u8>)
    requires
        all_digits(t),
        t.len() >= 1,
    ensures
        decimal_text(digits_value(t) as nat, t.len()) == chars_of(t),
    decreases t.len(),
{
    let u = t.drop_last();
    let d = t.last();
    assert(is_digit(t[t.len() - 1]));
    let e = d - 48;
    assert(all_digits(u)) by {
        assert forall|i: int| 0 <= i < u.len() implies is_digit(#[trigger] u[i]) by {
            assert(u[i] == t[i]);
        }
    }
    lemma_digits_bound(u);
    let v = digits_value(u);
    assert(digits_value(t) == v * 10 + e);
    assert((v * 10 + e) / 10 == v && (v * 10 + e) % 10 == e) by (nonlinear_arith)
        requires
            0 <= e < 10,
            v >= 0,
    ;
    assert(digit_char(e) == d as char);
    if t.len() == 1 {
        assert(u.len() == 0);
        assert(v == 0);
        assert(chars_of(t) =~= seq![d as char]);
    } else {
        lemma_decimal_text_of_digits(u);
        assert(chars_of(t) =~= chars_of(u) + seq![d as char]);
        assert(!(digits_value(t) < 10) || !(t.len() <= 1));
        if digits_value(t) < 10 {
        }
    }
}

proof fn lemma_field_text(s: Seq<u8>, i: int, n: int, min: int, max: int)
    requires
        field_ok(s, i, n, min, max),
        n >= 1,
    ensures
        decimal_text(field(s, i, n) as nat, n as nat) == chars_of(s).subrange(i, i + n),
{
    lemma_decimal_text_of_digits(s.subrange(i, i + n));
    lemma_chars_of_subrange(s, i, i + n);
}

/// Reading a UTCTime literal and printing the value gives back the literal.
pub proof fn lemma_utc_time_round_trip(s: Seq<u8>)
    requires
        is_utc_time(s),
    ensures
        utc_time_text(utc_time_of(s)) == chars_of(s),
{
    let n = s.len() as int;
    let c = chars_of(s);
    let t = utc_time_of(s);
    lemma_field_text(s, 0, 2, 0, 99);
    lemma_field_text(s, 2, 2, 1, 12);
    lemma_field_text(s, 4, 2, 1, 31);
    lemma_field_text(s, 6, 2, 0, 24);
    lemma_field_text(s, 8, 2, 0, 59);
    let b = utc_body_len(s);
    let body = decimal_text(t.year as nat, 2) + decimal_text(t.month as nat, 2) + decimal_text(
        t.day as nat,
        2,
    ) + decimal_text(t.hour as nat, 2) + decimal_text(t.minute as nat, 2) + match t.second {
        Some(sec) => decimal_text(sec as nat, 2),
        None => Seq::empty(),
    };
    if b == 12 {
        lemma_field_text(s, 10, 2, 0, 59);
    }
    assert(body =~= c.subrange(0, b));
    if s.last() == 90u8 {
        assert(c.subrange(b, n) =~= seq!['Z']);
    } else {
        lemma_field_text(s, n - 4, 2, 0, 23);
        lemma_field_text(s, n - 2, 2, 0, 59);
        let sign_char = if s[n - 5] == 43u8 {
            '+'
        } else {
            '-'
        };
        assert(c[n - 5] == sign_char);
        assert(c.subrange(b, n) =~= seq![sign_char] + c.subrange(n - 4, n - 2) + c.subrange(
            n - 2,
            n,
        ));
    }
    assert(c =~= c.subrange(0, b) + c.subrange(b, n));
}

/// Reading a DATE literal and printing the value gives back the literal.
pub proof fn lemma_date_round_trip(s: Seq<u8>)
    requires
        is_date(s),
    ensures
        date_text(date_of(s)) == chars_of(s),
{
    let c = chars_of(s);
    lemma_field_text(s, 0, 4, 0, 9999);
    lemma_field_text(s, 5, 2, 1, 12);
    lemma_field_text(s, 8, 2, 1, 31);
    assert(c[4] == '-' && c[7] == '-');
    assert(date_text(date_of(s)) =~= c);
}

/// Reading a TIME-OF-DAY literal and printing the value gives back the literal.
pub proof fn lemma_time_of_day_round_trip(s: Seq<u8>)
    requires
        is_time_of_day(s),
    ensures
        time_of_day_text(time_of_day_of(s)) == chars_of(s),
{
    let c = chars_of(s);
    lemma_field_text(s, 0, 2, 0, 23);
    lemma_field_text(s, 3, 2, 0, 59);
    lemma_field_text(s, 6, 2, 0, 59);
    assert(c[2] == ':' && c[5] == ':');
    assert(time_of_day_text(time_of_day_of(s)) =~= c);
}

/// Reading a DATE-TIME literal and printing the value gives back the literal.
pub proof fn lemma_date_time_round_trip(s: Seq<u8>)
    requires
        is_date_time(s),
    ensures
        date_time_text(date_time_of(s)) == chars_of(s),
{
    let c = chars_of(s);
    lemma_date_round_trip(s.subrange(0, 10));
    lemma_time_of_day_round_trip(s.subrange(11, 19));
    lemma_chars_of_subrange(s, 0, 10);
    lemma_chars_of_subrange(s, 11, 19);
    assert(c[10] == 'T');
    assert(date_time_text(date_time_of(s)) =~= c);
}

} // verus!
