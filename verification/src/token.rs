//! The placeholders of the format grammar and the text each one stands for.

use crate::digits::{decimal, decimal_value, is_digit, pow10, push_decimal, push_zero_padded};
use crate::digits::{lemma_decimal_is_canonical, lemma_decimal_is_digits, lemma_decimal_value};
use crate::digits::{lemma_pow10_positive, lemma_zero_padded_is_fixed_width};
use crate::digits::{lemma_zero_padded_prefix, lemma_zero_padded_value, zero_padded};
use vstd::prelude::*;

verus! {

/// Seconds in a minute.
pub const SECS_PER_MINUTE: u64 = 60;

/// Seconds in an hour.
pub const SECS_PER_HOUR: u64 = 3600;

/// Hours in a day.
pub const HOURS_PER_DAY: u64 = 24;

/// Nanoseconds in a second.
pub const NANOS_PER_SEC: u32 = 1_000_000_000;

/// A placeholder of a format string.
#[derive(Clone, Copy, Debug, PartialEq, Eq, Structural)]
pub enum Token {
    /// `%h`: hours elapsed, unpadded.
    TotalHours,
    /// `%H`: hours within the current day, two digits.
    HoursOfDay,
    /// `%m`: minutes elapsed, unpadded.
    TotalMinutes,
    /// `%M`: minutes within the current hour, two digits.
    MinutesOfHour,
    /// `%s`: seconds elapsed, unpadded.
    TotalSeconds,
    /// `%S`: seconds within the current minute, two digits.
    SecondsOfMinute,
    /// `%.Nf`, and `%.f` for one digit: a dot and the first N digits of the
    /// fraction of a second.
    Fraction(u8),
}

/// Whole hours in `secs` seconds.
pub open spec fn total_hours(secs: nat) -> nat {
    secs / 3600
}

/// The hour of the day that `secs` seconds reach, 0 to 23.
pub open spec fn hours_of_day(secs: nat) -> nat {
    (secs / 3600) % 24
}

/// Whole minutes in `secs` seconds.
pub open spec fn total_minutes(secs: nat) -> nat {
    secs / 60
}

/// The minute of the hour that `secs` seconds reach, 0 to 59.
pub open spec fn minutes_of_hour(secs: nat) -> nat {
    (secs % 3600) / 60
}

/// The second of the minute that `secs` seconds reach, 0 to 59.
pub open spec fn seconds_of_minute(secs: nat) -> nat {
    secs % 60
}

/// The first `precision` digits of `nanos` read as nine digits after the
/// decimal point: the rest is cut off, not rounded.
pub open spec fn fraction(nanos: nat, precision: nat) -> nat {
    nanos / pow10((9 - precision) as nat)
}

impl Token {
    /// A fraction has one to nine digits; every other token is valid as it is.
    pub open spec fn valid(self) -> bool {
        self matches Token::Fraction(precision) ==> 1 <= precision <= 9
    }

    /// The text that the token stands for at `secs` seconds and `nanos`
    /// nanoseconds.
    pub open spec fn text(self, secs: nat, nanos: nat) -> Seq<char> {
        match self {
            Token::TotalHours => decimal(total_hours(secs)),
            Token::HoursOfDay => zero_padded(hours_of_day(secs), 2),
            Token::TotalMinutes => decimal(total_minutes(secs)),
            Token::MinutesOfHour => zero_padded(minutes_of_hour(secs), 2),
            Token::TotalSeconds => decimal(secs),
            Token::SecondsOfMinute => zero_padded(seconds_of_minute(secs), 2),
            Token::Fraction(precision) => seq!['.'] + zero_padded(
                fraction(nanos, precision as nat),
                precision as nat,
            ),
        }
    }

    /// Appends to `out` the text that the token stands for.
    pub fn push_text(&self, secs: u64, nanos: u32, out: &mut String)
        requires
            self.valid(),
        ensures
            final(out)@ == old(out)@ + self.text(secs as nat, nanos as nat),
    {
        match *self {
            Token::TotalHours => push_decimal(out, secs / SECS_PER_HOUR),
            Token::HoursOfDay => push_zero_padded(out, (secs / SECS_PER_HOUR) % HOURS_PER_DAY, 2),
            Token::TotalMinutes => push_decimal(out, secs / SECS_PER_MINUTE),
            Token::MinutesOfHour => push_zero_padded(
                out,
                (secs % SECS_PER_HOUR) / SECS_PER_MINUTE,
                2,
            ),
            Token::TotalSeconds => push_decimal(out, secs),
            Token::SecondsOfMinute => push_zero_padded(out, secs % SECS_PER_MINUTE, 2),
            Token::Fraction(precision) => {
                let divisor: u32 = fraction_divisor(precision);
                let shown: u32 = nanos / divisor;
                out.push('.');
                push_zero_padded(out, shown as u64, precision as usize);
            },
        }
    }
}

/// The power of ten by which nanoseconds are divided to keep `precision`
/// digits.
fn fraction_divisor(precision: u8) -> (divisor: u32)
    requires
        1 <= precision <= 9,
    ensures
        divisor >= 1,
        divisor == pow10((9 - precision) as nat),
{
    proof {
        reveal_with_fuel(pow10, 10);
    }
    match precision {
        1 => 100_000_000,
        2 => 10_000_000,
        3 => 1_000_000,
        4 => 100_000,
        5 => 10_000,
        6 => 1_000,
        7 => 100,
        8 => 10,
        _ => 1,
    }
}

/// The fields that count within a unit (`%H`, `%M`, `%S`) are always exactly
/// two digits, also at zero, and the two digits read as the value of the
/// field, which stays below the size of the unit.
pub proof fn lemma_fields_within_a_unit_have_two_digits(token: Token, secs: nat, nanos: nat)
    requires
        token == Token::HoursOfDay || token == Token::MinutesOfHour || token
            == Token::SecondsOfMinute,
    ensures
        token.text(secs, nanos).len() == 2,
        is_digit(token.text(secs, nanos)[0]),
        is_digit(token.text(secs, nanos)[1]),
        hours_of_day(secs) < 24,
        minutes_of_hour(secs) < 60,
        seconds_of_minute(secs) < 60,
        decimal_value(token.text(secs, nanos)) == match token {
            Token::HoursOfDay => hours_of_day(secs),
            Token::MinutesOfHour => minutes_of_hour(secs),
            _ => seconds_of_minute(secs),
        },
{
    let value: nat = match token {
        Token::HoursOfDay => hours_of_day(secs),
        Token::MinutesOfHour => minutes_of_hour(secs),
        _ => seconds_of_minute(secs),
    };
    assert(pow10(2) == 100) by {
        reveal_with_fuel(pow10, 3);
    }
    lemma_zero_padded_is_fixed_width(value, 2);
    lemma_zero_padded_value(value, 2);
}

/// The fields that count a whole duration (`%h`, `%m`, `%s`) are the plain
/// decimal number, however large: digits only, no zero or blank in front,
/// and they read as the value of the field, so nothing is cut off.
pub proof fn lemma_total_fields_are_plain_numbers(token: Token, secs: nat, nanos: nat)
    requires
        token == Token::TotalHours || token == Token::TotalMinutes || token == Token::TotalSeconds,
    ensures
        token.text(secs, nanos).len() >= 1,
        forall|i: int|
            0 <= i < token.text(secs, nanos).len() ==> is_digit(
                #[trigger] token.text(secs, nanos)[i],
            ),
        token.text(secs, nanos)[0] == '0' <==> token.text(secs, nanos) == seq!['0'],
        decimal_value(token.text(secs, nanos)) == match token {
            Token::TotalHours => total_hours(secs),
            Token::TotalMinutes => total_minutes(secs),
            _ => secs,
        },
{
    let value: nat = match token {
        Token::TotalHours => total_hours(secs),
        Token::TotalMinutes => total_minutes(secs),
        _ => secs,
    };
    lemma_decimal_is_digits(value);
    lemma_decimal_is_canonical(value);
    lemma_decimal_value(value);
}

/// A fraction is a dot and exactly `precision` digits: the first `precision`
/// of the nine digits of the nanoseconds. The digits behind them are cut
/// off, so the fraction is never rounded up and never reaches the next
/// second.
pub proof fn lemma_fraction_is_cut_not_rounded(precision: u8, secs: nat, nanos: nat)
    requires
        1 <= precision <= 9,
        nanos < 1_000_000_000,
    ensures
        Token::Fraction(precision).text(secs, nanos) == seq!['.'] + zero_padded(nanos, 9).take(
            precision as int,
        ),
        Token::Fraction(precision).text(secs, nanos).len() == precision + 1,
        fraction(nanos, precision as nat) < pow10(precision as nat),
        fraction(nanos, precision as nat) * pow10((9 - precision) as nat) <= nanos,
{
    assert(pow10(9) == 1_000_000_000) by {
        reveal_with_fuel(pow10, 10);
    }
    lemma_zero_padded_prefix(nanos, 9, precision as nat);
    lemma_zero_padded_is_fixed_width(fraction(nanos, precision as nat), precision as nat);
    let divisor = pow10((9 - precision) as nat);
    lemma_pow10_positive((9 - precision) as nat);
    assert((nanos / divisor) * divisor <= nanos) by (nonlinear_arith)
        requires
            divisor >= 1,
    ;
}

} // verus!
