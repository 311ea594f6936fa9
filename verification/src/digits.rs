//! Decimal text of natural numbers, unpadded and zero-padded.

use vstd::prelude::*;

verus! {

/// The character that stands for a decimal digit.
pub open spec fn digit_char(d: nat) -> char {
    if d == 0 {
        '0'
    } else if d == 1 {
        '1'
    } else if d == 2 {
        '2'
    } else if d == 3 {
        '3'
    } else if d == 4 {
        '4'
    } else if d == 5 {
        '5'
    } else if d == 6 {
        '6'
    } else if d == 7 {
        '7'
    } else if d == 8 {
        '8'
    } else {
        '9'
    }
}

/// Whether `c` is one of `0` to `9`.
pub open spec fn is_digit(c: char) -> bool {
    exists|d: nat| d < 10 && c == #[trigger] digit_char(d)
}

/// The number that a digit character stands for; 0 for any other character.
pub open spec fn digit_value(c: char) -> nat {
    if c == '1' {
        1
    } else if c == '2' {
        2
    } else if c == '3' {
        3
    } else if c == '4' {
        4
    } else if c == '5' {
        5
    } else if c == '6' {
        6
    } else if c == '7' {
        7
    } else if c == '8' {
        8
    } else if c == '9' {
        9
    } else {
        0
    }
}

/// Ten to the power `e`.
pub open spec fn pow10(e: nat) -> nat
    decreases e,
{
    if e == 0 {
        1
    } else {
        10 * pow10((e - 1) as nat)
    }
}

/// The decimal representation of `n`, most significant digit first, without
/// padding: one digit for numbers below ten, no leading zero otherwise.
pub open spec fn decimal(n: nat) -> Seq<char>
    decreases n,
{
    if n < 10 {
        seq![digit_char(n)]
    } else {
        decimal(n / 10).push(digit_char(n % 10))
    }
}

/// `count` times the character `0`.
pub open spec fn zeros(count: nat) -> Seq<char> {
    Seq::new(count, |i: int| '0')
}

/// The decimal representation of `n`, filled up on the left with `0` to at
/// least `width` characters. A number with more digits than `width` keeps
/// all of them.
pub open spec fn zero_padded(n: nat, width: nat) -> Seq<char> {
    let digits = decimal(n);
    if digits.len() >= width {
        digits
    } else {
        zeros((width - digits.len()) as nat) + digits
    }
}

/// The number that a text of decimal digits stands for.
pub open spec fn decimal_value(text: Seq<char>) -> nat
    decreases text.len(),
{
    if text.len() == 0 {
        0
    } else {
        10 * decimal_value(text.drop_last()) + digit_value(text.last())
    }
}

/// `std::string::String::push`: afterwards the string is what it was before,
/// with the character `c` added at its end. This is taken from the
/// documentation of the standard library and is not proved here.
pub assume_specification[ String::push ](s: &mut String, c: char)
    ensures
        final(s)@ == old(s)@.push(c),
;

/// The character of one decimal digit.
fn digit_to_char(d: u64) -> (c: char)
    requires
        d < 10,
    ensures
        c == digit_char(d as nat),
{
    match d {
        0 => '0',
        1 => '1',
        2 => '2',
        3 => '3',
        4 => '4',
        5 => '5',
        6 => '6',
        7 => '7',
        8 => '8',
        _ => '9',
    }
}

/// Appends the unpadded decimal representation of `n` to `out`.
pub fn push_decimal(out: &mut String, n: u64)
    ensures
        final(out)@ == old(out)@ + decimal(n as nat),
    decreases n,
{
    if n >= 10 {
        push_decimal(out, n / 10);
    }
    out.push(digit_to_char(n % 10));
}

/// Appends the decimal representation of `n` to `out`, filled up on the left
/// with `0` to at least `width` characters.
pub fn push_zero_padded(out: &mut String, n: u64, width: usize)
    ensures
        final(out)@ == old(out)@ + zero_padded(n as nat, width as nat),
    decreases n,
{
    let ghost before = out@;
    if n >= 10 {
        let rest: usize = if width > 0 {
            width - 1
        } else {
            0
        };
        push_zero_padded(out, n / 10, rest);
        proof {
            lemma_zero_padded_step(n as nat, width as nat);
        }
    } else {
        let mut filled: usize = 1;
        while filled < width
            invariant
                1 <= filled,
                filled <= width || filled == 1,
                out@ == before + zeros((filled - 1) as nat),
            decreases width - filled,
        {
            out.push('0');
            filled = filled + 1;
            assert(zeros((filled - 2) as nat).push('0') =~= zeros((filled - 1) as nat));
        }
        assert(zero_padded(n as nat, width as nat) =~= zeros((filled - 1) as nat).push(
            digit_char(n as nat),
        ));
    }
    out.push(digit_to_char(n % 10));
}

/// Padding a number of two or more digits is padding the number without its
/// last digit to one character less, followed by the last digit.
pub proof fn lemma_zero_padded_step(n: nat, width: nat)
    requires
        n >= 10,
    ensures
        zero_padded(n, width) == zero_padded(
            n / 10,
            if width > 0 {
                (width - 1) as nat
            } else {
                0
            },
        ).push(digit_char(n % 10)),
{
    let rest: nat = if width > 0 {
        (width - 1) as nat
    } else {
        0
    };
    assert(zero_padded(n, width) =~= zero_padded(n / 10, rest).push(digit_char(n % 10)));
}

/// Every power of ten is positive.
pub proof fn lemma_pow10_positive(e: nat)
    ensures
        pow10(e) >= 1,
    decreases e,
{
    if e > 0 {
        lemma_pow10_positive((e - 1) as nat);
    }
}

/// A decimal representation consists of digits only.
pub proof fn lemma_decimal_is_digits(n: nat)
    ensures
        forall|i: int| 0 <= i < decimal(n).len() ==> is_digit(#[trigger] decimal(n)[i]),
    decreases n,
{
    if n >= 10 {
        lemma_decimal_is_digits(n / 10);
        assert forall|i: int| 0 <= i < decimal(n).len() implies is_digit(
            #[trigger] decimal(n)[i],
        ) by {
            if i < decimal(n / 10).len() {
                assert(decimal(n)[i] == decimal(n / 10)[i]);
            }
        }
    }
}

/// A decimal representation is never empty, and it begins with `0` only for
/// the number zero: nothing is padded.
pub proof fn lemma_decimal_is_canonical(n: nat)
    ensures
        decimal(n).len() >= 1,
        decimal(n)[0] == '0' <==> n == 0,
    decreases n,
{
    if n >= 10 {
        lemma_decimal_is_canonical(n / 10);
    }
}

/// Reading a decimal representation gives the number back: nothing is cut off.
pub proof fn lemma_decimal_value(n: nat)
    ensures
        decimal_value(decimal(n)) == n,
    decreases n,
{
    if n < 10 {
        assert(decimal_value(decimal(n).drop_last()) == 0);
    } else {
        lemma_decimal_value(n / 10);
        assert(decimal(n).drop_last() =~= decimal(n / 10));
    }
}

/// A number has at most `width` digits exactly if it is below ten to the
/// power `width`.
pub proof fn lemma_decimal_len(n: nat, width: nat)
    requires
        width >= 1,
    ensures
        decimal(n).len() <= width <==> n < pow10(width),
    decreases n,
{
    lemma_pow10_positive((width - 1) as nat);
    if n >= 10 {
        lemma_decimal_is_canonical(n / 10);
        if width >= 2 {
            lemma_decimal_len(n / 10, (width - 1) as nat);
        }
    }
}

/// A number below ten to the power `width` is padded to exactly `width`
/// characters, all of them digits.
pub proof fn lemma_zero_padded_is_fixed_width(n: nat, width: nat)
    requires
        width >= 1,
        n < pow10(width),
    ensures
        zero_padded(n, width).len() == width,
        forall|i: int| 0 <= i < width ==> is_digit(#[trigger] zero_padded(n, width)[i]),
{
    lemma_decimal_len(n, width);
    lemma_decimal_is_digits(n);
    assert('0' == digit_char(0));
    let fill = width - decimal(n).len();
    assert forall|i: int| 0 <= i < width implies is_digit(#[trigger] zero_padded(n, width)[i]) by {
        if i >= fill {
            assert(zero_padded(n, width)[i] == decimal(n)[i - fill]);
        }
    }
}

/// Zeros on the left do not change the number that a text stands for.
pub proof fn lemma_leading_zeros_value(fill: nat, text: Seq<char>)
    ensures
        decimal_value(zeros(fill) + text) == decimal_value(text),
    decreases text.len(), fill,
{
    let whole = zeros(fill) + text;
    if text.len() > 0 {
        lemma_leading_zeros_value(fill, text.drop_last());
        assert(whole.drop_last() =~= zeros(fill) + text.drop_last());
    } else if fill > 0 {
        lemma_leading_zeros_value((fill - 1) as nat, text);
        assert(whole.drop_last() =~= zeros((fill - 1) as nat) + text);
    }
}

/// Reading a zero-padded representation gives the number back.
pub proof fn lemma_zero_padded_value(n: nat, width: nat)
    ensures
        decimal_value(zero_padded(n, width)) == n,
{
    lemma_decimal_value(n);
    if decimal(n).len() < width {
        lemma_leading_zeros_value((width - decimal(n).len()) as nat, decimal(n));
    }
}

/// The first `keep` characters of a number padded to `width` characters are
/// the number without its last `width - keep` digits, padded to `keep`
/// characters: cutting the text cuts the number, and never rounds it.
pub proof fn lemma_zero_padded_prefix(n: nat, width: nat, keep: nat)
    requires
        1 <= keep <= width,
        n < pow10(width),
    ensures
        n / pow10((width - keep) as nat) < pow10(keep),
        zero_padded(n, width).take(keep as int) == zero_padded(
            n / pow10((width - keep) as nat),
            keep,
        ),
    decreases width - keep,
{
    lemma_zero_padded_is_fixed_width(n, width);
    if keep == width {
        assert(pow10((width - keep) as nat) == 1);
        assert(zero_padded(n, width).take(keep as int) =~= zero_padded(n, width));
    } else {
        let shorter: nat = (width - 1) as nat;
        lemma_pow10_positive(shorter);
        lemma_pow10_positive((shorter - keep) as nat);
        assert(n / 10 < pow10(shorter));
        lemma_zero_padded_prefix(n / 10, shorter, keep);
        lemma_zero_padded_drop_last(n, width);
        assert(zero_padded(n, width).take(keep as int) =~= zero_padded(n, width).drop_last().take(
            keep as int,
        ));
        lemma_div_by_pow10_step(n, (shorter - keep) as nat);
        assert((shorter - keep) as nat + 1 == (width - keep) as nat);
    }
}

/// Dividing by ten and then by a power of ten divides by the next power.
pub proof fn lemma_div_by_pow10_step(n: nat, e: nat)
    ensures
        (n / 10) / pow10(e) == n / pow10((e + 1) as nat),
{
    lemma_pow10_positive(e);
    let p = pow10(e);
    assert((n / 10) / p == n / (10 * p)) by (nonlinear_arith)
        requires
            p >= 1,
    ;
}

/// A number padded to two or more characters, without its last character,
/// is the number without its last digit, padded to one character less.
pub proof fn lemma_zero_padded_drop_last(n: nat, width: nat)
    requires
        width >= 2,
        n < pow10(width),
    ensures
        zero_padded(n, width).drop_last() == zero_padded(n / 10, (width - 1) as nat),
{
    if n >= 10 {
        lemma_zero_padded_step(n, width);
        assert(zero_padded(n / 10, (width - 1) as nat).push(digit_char(n % 10)).drop_last()
            =~= zero_padded(n / 10, (width - 1) as nat));
    }
}

} // verus!
