//! Calendar timestamps in UTC, held as plain fields, with the fixed
//! date-and-minute rendering used for on-disk file names and listings.

use vstd::prelude::*;
use chrono::{Datelike, Timelike};

verus! {

/// A calendar timestamp, already normalized to UTC.
#[derive(Debug, Clone, Copy, PartialEq, Eq, Structural)]
pub struct Date {
    pub year: u32,
    pub month: u32,
    pub day: u32,
    pub hour: u32,
    pub minute: u32,
    pub second: u32,
}

impl Date {
    /// The Unix epoch, the `last_checked` mark of a never-refreshed podcast.
    pub open spec fn spec_epoch() -> Date {
        Date { year: 1970, month: 1, day: 1, hour: 0, minute: 0, second: 0 }
    }

    pub fn epoch() -> (d: Date)
        ensures
            d == Date::spec_epoch(),
    {
        Date { year: 1970, month: 1, day: 1, hour: 0, minute: 0, second: 0 }
    }
}

/// What `DateTime::parse_from_rfc2822`, normalized to UTC, yields on a given
/// string: `None` on text it rejects, otherwise the calendar fields.
pub uninterp spec fn rfc2822_utc(s: Seq<char>) -> Option<Date>;

/// Relies on chrono's `DateTime::parse_from_rfc2822` followed by `to_utc`:
/// the parsed calendar fields depend on the input string alone. A date whose
/// UTC year falls outside `u32` is reported as unparseable.
#[verifier::external_body]
pub(crate) fn parse_rfc2822(s: &str) -> (r: Option<Date>)
    ensures
        r == rfc2822_utc(s@),
{
    match chrono::DateTime::parse_from_rfc2822(s) {
        Ok(t) => {
            let u = t.to_utc();
            match u32::try_from(u.year()) {
                Ok(y) => Some(Date {
                    year: y, month: u.month(), day: u.day(),
                    hour: u.hour(), minute: u.minute(), second: u.second(),
                }),
                Err(_) => None,
            }
        },
        Err(_) => None,
    }
}

/// Relies on chrono's `Utc::now`; nothing is promised of the clock's value.
#[verifier::external_body]
pub(crate) fn now_utc() -> (d: Date) {
    let u = chrono::Utc::now();
    match u32::try_from(u.year()) {
        Ok(y) => Date {
            year: y, month: u.month(), day: u.day(),
            hour: u.hour(), minute: u.minute(), second: u.second(),
        },
        Err(_) => Date { year: 0, month: 1, day: 1, hour: 0, minute: 0, second: 0 },
    }
}

/// The decimal digit character for `d`.
pub open spec fn digit_char(d: u32) -> char
    recommends
        d < 10,
{
    ((48 + d) as u32) as char
}

/// The decimal digits of `n`, zero-padded on the left to at least `width`
/// characters.
pub open spec fn spec_udec(n: nat, width: int) -> Seq<char>
    decreases (if width > 0 { width } else { 0 }), n,
{
    if n < 10 && width <= 1 {
        seq![digit_char(n as u32)]
    } else {
        spec_udec(n / 10, if width <= 0 { 0 } else { width - 1 }).push(
            digit_char((n % 10) as u32),
        )
    }
}

/// The fixed date-and-minute rendering `YYYY-MM-DDTHH:MM` of a date (years
/// above 9999 take as many digits as they need).
pub open spec fn spec_format_minute(d: Date) -> Seq<char> {
    spec_udec(d.year as nat, 4) + seq!['-'] + spec_udec(d.month as nat, 2) + seq!['-']
        + spec_udec(d.day as nat, 2) + seq!['T'] + spec_udec(d.hour as nat, 2) + seq![':']
        + spec_udec(d.minute as nat, 2)
}

/// Appends the decimal digits of `n`, zero-padded to at least `width`
/// characters, to `s`.
pub(crate) fn push_udec(s: &mut String, n: u32, width: u32)
    ensures
        final(s)@ == old(s)@ + spec_udec(n as nat, width as int),
    decreases width, n,
{
    if n < 10 && width <= 1 {
        push_digit(s, n);
        assert(s@ =~= old(s)@ + spec_udec(n as nat, width as int));
    } else {
        push_udec(s, n / 10, if width == 0 { 0 } else { width - 1 });
        push_digit(s, n % 10);
        assert(s@ =~= old(s)@ + spec_udec(n as nat, width as int));
    }
}

/// Appends the digit character of `d` to `s`.
fn push_digit(s: &mut String, d: u32)
    requires
        d < 10,
    ensures
        final(s)@ == old(s)@.push(digit_char(d)),
{
    match char::from_u32(48 + d) {
        Some(c) => {
            proof {
                vstd::utf8::char_u32_cast(c, (48 + d) as u32);
            }
            s.push(c);
        },
        None => {
            proof {
                assert(false);
            }
        },
    }
}

/// Renders a date as `YYYY-MM-DDTHH:MM`.
pub fn format_minute(d: &Date) -> (s: String)
    ensures
        s@ == spec_format_minute(*d),
{
    let mut s = String::new();
    push_udec(&mut s, d.year, 4);
    s.push('-');
    push_udec(&mut s, d.month, 2);
    s.push('-');
    push_udec(&mut s, d.day, 2);
    s.push('T');
    push_udec(&mut s, d.hour, 2);
    s.push(':');
    push_udec(&mut s, d.minute, 2);
    assert(s@ =~= spec_format_minute(*d));
    s
}

} // verus!
