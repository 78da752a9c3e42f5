//! Amounts with decimal places, without rounding.
use vstd::prelude::*;
use vstd::string::*;

use crate::error::Error;
use crate::text::{all_digits, decimal, digit_char, digits_value, is_digit,
    lemma_leading_digits_is, lemma_number_text, number_of, number_text, parse_number, starts_with,
    unsigned_part};

verus! {

/// The most decimal places that a 64-bit amount can have.
pub const MAX_DECIMALS: u8 = 19;

/// A power of ten.
pub open spec fn pow10(n: nat) -> nat
    decreases n,
{
    if n == 0 {
        1
    } else {
        10 * pow10((n - 1) as nat)
    }
}

proof fn lemma_pow10(n: nat)
    ensures
        pow10(n) >= 1,
        n <= 19 ==> pow10(n) <= 10_000_000_000_000_000_000,
    decreases n,
{
    if n > 0 {
        lemma_pow10((n - 1) as nat);
    }
    if n <= 19 {
        lemma_pow10_monotonic(n, 19);
        assert(pow10(19) == 10_000_000_000_000_000_000) by {
            reveal_with_fuel(pow10, 20);
        }
    }
}

proof fn lemma_pow10_monotonic(a: nat, b: nat)
    requires
        a <= b,
    ensures
        1 <= pow10(a) <= pow10(b),
    decreases b,
{
    if a < b {
        lemma_pow10_monotonic(a, (b - 1) as nat);
    } else if a > 0 {
        lemma_pow10_monotonic((a - 1) as nat, (b - 1) as nat);
    }
}

proof fn lemma_pow10_sum(a: nat, b: nat)
    ensures
        pow10(a + b) == pow10(a) * pow10(b),
    decreases b,
{
    if b == 0 {
        assert(pow10(a) * 1 == pow10(a));
    } else {
        lemma_pow10_sum(a, (b - 1) as nat);
        let x = pow10(a);
        let y = pow10((b - 1) as nat);
        assert((a + b - 1) as nat == a + ((b - 1) as nat));
        assert(10 * (x * y) == x * (10 * y)) by (nonlinear_arith);
    }
}

/// A power of ten.
fn power_of_ten(n: u8) -> (p: u64)
    requires
        n <= MAX_DECIMALS,
    ensures
        p == pow10(n as nat),
{
    let mut p: u64 = 1;
    let mut i: u8 = 0;
    while i < n
        invariant
            i <= n <= MAX_DECIMALS,
            p == pow10(i as nat),
        decreases n - i,
    {
        proof {
            lemma_pow10((i + 1) as nat);
            assert((i + 1 - 1) as nat == i as nat);
        }
        p = p * 10;
        i += 1;
    }
    p
}

// ---------------------------------------------------------------------------------------------
// Reading
// ---------------------------------------------------------------------------------------------
/// The position of the first point in a text, or its length.
pub open spec fn point_at(text: Seq<char>) -> nat
    decreases text.len(),
{
    if text.len() == 0 || text[0] == '.' {
        0
    } else {
        1 + point_at(text.skip(1))
    }
}

/// What stands before the point.
pub open spec fn whole_part(text: Seq<char>) -> Seq<char> {
    text.take(point_at(text) as int)
}

/// What stands behind the point.
pub open spec fn fractional_part(text: Seq<char>) -> Seq<char> {
    if point_at(text) < text.len() {
        text.skip((point_at(text) + 1) as int)
    } else {
        Seq::empty()
    }
}

/// The number of base units that a text writes, or what is wrong with the text.
pub open spec fn amount_of(text: Seq<char>, decimals: u8) -> Result<u64, Error> {
    let whole = whole_part(text);
    let fractional = fractional_part(text);
    let scaled = digits_value(whole) * pow10(decimals as nat) + digits_value(fractional) * pow10(
        (decimals - fractional.len()) as nat,
    );
    if decimals > MAX_DECIMALS {
        Err(Error::AmountPrecision)
    } else if text.len() == 0 || text[0] == '-' || text[0] == '+' {
        Err(Error::AmountInvalid)
    } else if whole.len() == 0 || !all_digits(whole) || !all_digits(fractional) || fractional.len()
        > decimals {
        Err(Error::AmountPlaces)
    } else if digits_value(whole) > u64::MAX {
        Err(Error::NumberTooLarge)
    } else if scaled > u64::MAX {
        Err(Error::AmountOverflow)
    } else {
        Ok(scaled as u64)
    }
}

proof fn lemma_point_at_is(text: Seq<char>, n: nat)
    requires
        n <= text.len(),
        forall|k: int| 0 <= k < n ==> #[trigger] text[k] != '.',
        n < text.len() ==> text[n as int] == '.',
    ensures
        point_at(text) == n,
    decreases n,
{
    if n > 0 {
        let rest = text.skip(1);
        assert(text[0] != '.');
        assert forall|k: int| 0 <= k < n - 1 implies #[trigger] rest[k] != '.' by {
            assert(rest[k] == text[k + 1]);
        }
        lemma_point_at_is(rest, (n - 1) as nat);
    }
}

/// The position of the first point in a text, or its length.
fn find_point(text: &str) -> (at: usize)
    ensures
        at == point_at(text@),
        at <= text@.len(),
{
    let total: usize = text.unicode_len();
    let mut n: usize = 0;
    for c in it: text.chars()
        invariant
            it.seq() == text@,
            n == it.index(),
            total == text@.len(),
            forall|k: int| 0 <= k < n ==> #[trigger] text@[k] != '.',
    {
        if c == '.' {
            proof {
                lemma_point_at_is(text@, n as nat);
            }
            return n;
        }
        n += 1;
    }
    proof {
        lemma_point_at_is(text@, n as nat);
    }
    n
}

/// Tells whether all characters are digits.
fn only_digits(text: &str) -> (yes: bool)
    ensures
        yes == all_digits(text@),
{
    let total: usize = text.unicode_len();
    let mut n: usize = 0;
    for c in it: text.chars()
        invariant
            it.seq() == text@,
            n == it.index(),
            total == text@.len(),
            forall|k: int| 0 <= k < n ==> is_digit(#[trigger] text@[k]),
    {
        if !('0' <= c && c <= '9') {
            assert(!is_digit(text@[n as int]));
            return false;
        }
        n += 1;
    }
    true
}

/// Digits write a number below the power of ten of their count.
proof fn lemma_digits_bound(digits: Seq<char>)
    requires
        all_digits(digits),
    ensures
        digits_value(digits) < pow10(digits.len()),
    decreases digits.len(),
{
    if digits.len() > 0 {
        let front = digits.drop_last();
        assert forall|i: int| 0 <= i < front.len() implies is_digit(#[trigger] front[i]) by {
            assert(front[i] == digits[i]);
        }
        lemma_digits_bound(front);
        assert(is_digit(digits[digits.len() - 1]));
    }
}

proof fn lemma_number_of_digits(digits: Seq<char>)
    requires
        digits.len() > 0,
        all_digits(digits),
    ensures
        number_of(digits, u64::MAX) == if digits_value(digits) > u64::MAX {
            Err::<u64, Error>(Error::NumberTooLarge)
        } else {
            Ok::<u64, Error>(digits_value(digits) as u64)
        },
{
    assert(is_digit(digits[0]));
    assert(unsigned_part(digits) == digits);
    lemma_leading_digits_is(digits, digits.len());
    assert(digits.take(digits.len() as int) =~= digits);
}

/// Reads an amount in decimal as base units. No amount is rounded.
pub fn parse_amount(input: &str, decimals: u8) -> (amount: Result<u64, Error>)
    ensures
        amount == amount_of(input@, decimals),
{
    if decimals > MAX_DECIMALS {
        return Err(Error::AmountPrecision);
    }
    let len: usize = input.unicode_len();
    proof {
        reveal_strlit("-");
        reveal_strlit("+");
        assert("-"@ =~= seq!['-']);
        assert("+"@ =~= seq!['+']);
        if len > 0 {
            assert(input@.subrange(0, 1) =~= seq![input@[0]]);
            assert(seq![input@[0]][0] == input@[0]);
            assert(seq!['-'][0] == '-');
            assert(seq!['+'][0] == '+');
        }
    }
    if len == 0 || starts_with(input, "-") || starts_with(input, "+") {
        return Err(Error::AmountInvalid);
    }
    let point: usize = find_point(input);
    let whole = input.substring_char(0, point);
    assert(whole@ =~= whole_part(input@));
    let fractional = if point < len {
        input.substring_char(point + 1, len)
    } else {
        input.substring_char(len, len)
    };
    assert(fractional@ =~= fractional_part(input@));
    if point == 0 || !only_digits(whole) || !only_digits(fractional)
        || fractional.unicode_len() > decimals as usize {
        return Err(Error::AmountPlaces);
    }
    let scale: u64 = power_of_ten(decimals);
    proof {
        lemma_number_of_digits(whole@);
    }
    let whole: u64 = match parse_number(whole, u64::MAX) {
        Ok(whole) => whole,
        Err(error) => return Err(error),
    };
    let places: u8 = fractional.unicode_len() as u8;
    let fraction: u64 = if places == 0 {
        0
    } else {
        proof {
            lemma_number_of_digits(fractional@);
            lemma_digits_bound(fractional@);
            lemma_pow10(places as nat);
        }
        match parse_number(fractional, u64::MAX) {
            Ok(fraction) => fraction,
            Err(error) => return Err(error),
        }
    };
    let padding: u64 = power_of_ten(decimals - places);
    proof {
        assert(fraction == digits_value(fractional@));
        assert((decimals - places) as nat == (decimals - fractional@.len()) as nat);
        assert(whole * scale >= 0) by (nonlinear_arith);
        assert(fraction * padding >= 0) by (nonlinear_arith);
    }
    match whole.checked_mul(scale) {
        None => Err(Error::AmountOverflow),
        Some(units) => match fraction.checked_mul(padding) {
            None => Err(Error::AmountOverflow),
            Some(rest) => match units.checked_add(rest) {
                None => Err(Error::AmountOverflow),
                Some(total) => Ok(total),
            },
        },
    }
}

// ---------------------------------------------------------------------------------------------
// Writing
// ---------------------------------------------------------------------------------------------
/// The last digits of a number in decimal, with leading zeros.
pub open spec fn padded_text(n: nat, width: nat) -> Seq<char>
    decreases width,
{
    if width == 0 {
        Seq::empty()
    } else {
        padded_text(n / 10, (width - 1) as nat).push(digit_char(n % 10))
    }
}

/// The text without the zeros behind it.
pub open spec fn without_zeros(text: Seq<char>) -> Seq<char>
    decreases text.len(),
{
    if text.len() > 0 && text.last() == '0' {
        without_zeros(text.drop_last())
    } else {
        text
    }
}

/// An amount in decimal: the whole part and, behind a point, what is left without trailing zeros.
pub open spec fn amount_text(amount: u64, decimals: u8) -> Seq<char> {
    let scale = pow10(decimals as nat);
    let fraction = without_zeros(padded_text(amount as nat % scale, decimals as nat));
    if decimals > MAX_DECIMALS {
        number_text(amount as nat) + " base units (decimals "@ + number_text(decimals as nat) + ")"@
    } else if fraction.len() == 0 {
        number_text(amount as nat / scale)
    } else {
        number_text(amount as nat / scale) + "."@ + fraction
    }
}

/// The last digits of a number without the zeros behind them.
fn fraction_text(n: u64, width: u8) -> (text: String)
    ensures
        text@ == without_zeros(padded_text(n as nat, width as nat)),
    decreases width,
{
    if width == 0 {
        return String::new();
    }
    let digit: u8 = (n % 10) as u8;
    proof {
        let whole = padded_text(n as nat, width as nat);
        assert(whole.last() == digit_char(n as nat % 10));
        assert(whole.drop_last() =~= padded_text(n as nat / 10, (width - 1) as nat));
    }
    if digit == 0 {
        return fraction_text(n / 10, width - 1);
    }
    let mut text = padded(n / 10, width - 1);
    text.push((0x30 + digit) as char);
    text
}

/// The last digits of a number, with leading zeros.
fn padded(n: u64, width: u8) -> (text: String)
    ensures
        text@ == padded_text(n as nat, width as nat),
    decreases width,
{
    if width == 0 {
        return String::new();
    }
    let mut text = padded(n / 10, width - 1);
    let digit: u8 = (n % 10) as u8;
    text.push((0x30 + digit) as char);
    text
}

/// Writes base units as an amount in decimal.
pub fn format_amount(amount: u64, decimals: u8) -> (text: String)
    ensures
        text@ == amount_text(amount, decimals),
{
    if decimals > MAX_DECIMALS {
        return decimal(amount as u128).concat(" base units (decimals ").concat(
            decimal(decimals as u128).as_str(),
        ).concat(")");
    }
    let scale: u64 = power_of_ten(decimals);
    proof {
        lemma_pow10(decimals as nat);
    }
    let fraction = fraction_text(amount % scale, decimals);
    if fraction.as_str().is_empty() {
        decimal((amount / scale) as u128)
    } else {
        decimal((amount / scale) as u128).concat(".").concat(fraction.as_str())
    }
}

// ---------------------------------------------------------------------------------------------
// Laws
// ---------------------------------------------------------------------------------------------
proof fn lemma_padded(n: nat, width: nat)
    requires
        n < pow10(width),
    ensures
        padded_text(n, width).len() == width,
        all_digits(padded_text(n, width)),
        digits_value(padded_text(n, width)) == n,
    decreases width,
{
    if width > 0 {
        lemma_padded(n / 10, (width - 1) as nat);
        let text = padded_text(n, width);
        let front = padded_text(n / 10, (width - 1) as nat);
        assert(text.drop_last() =~= front);
        assert forall|i: int| 0 <= i < text.len() implies is_digit(#[trigger] text[i]) by {
            if i < front.len() {
                assert(text[i] == front[i]);
            }
        }
    }
}

proof fn lemma_without_zeros(text: Seq<char>)
    requires
        all_digits(text),
    ensures
        without_zeros(text).len() <= text.len(),
        all_digits(without_zeros(text)),
        digits_value(text) == digits_value(without_zeros(text)) * pow10(
            (text.len() - without_zeros(text).len()) as nat,
        ),
    decreases text.len(),
{
    if text.len() > 0 && text.last() == '0' {
        let front = text.drop_last();
        assert forall|i: int| 0 <= i < front.len() implies is_digit(#[trigger] front[i]) by {
            assert(front[i] == text[i]);
        }
        lemma_without_zeros(front);
        let short = without_zeros(front);
        let k = (front.len() - short.len()) as nat;
        assert((text.len() - short.len()) as nat == k + 1);
        assert((k + 1 - 1) as nat == k);
        let v = digits_value(short);
        let p = pow10(k);
        assert(10 * (v * p) == v * (10 * p)) by (nonlinear_arith);
    } else {
        let v = digits_value(text);
        assert(pow10(0) == 1);
        assert(v * 1 == v);
    }
}

/// Reading an amount that was written gives the same base units back.
pub proof fn amount_round_trip(amount: u64, decimals: u8)
    requires
        decimals <= MAX_DECIMALS,
    ensures
        amount_of(amount_text(amount, decimals), decimals) == Ok::<u64, Error>(amount),
{
    let d = decimals as nat;
    let scale = pow10(d);
    lemma_pow10(d);
    let n = amount as nat;
    let w = n / scale;
    let f = n % scale;
    assert(n == w * scale + f && f < scale && w <= n) by (nonlinear_arith)
        requires
            scale >= 1,
            w == n / scale,
            f == n % scale,
    ;
    lemma_padded(f, d);
    let padded = padded_text(f, d);
    lemma_without_zeros(padded);
    let fraction = without_zeros(padded);
    let whole = number_text(w);
    lemma_number_text(w);
    let text = amount_text(amount, decimals);
    reveal_strlit(".");
    assert("."@ =~= seq!['.']);
    assert(text[0] == whole[0]);
    assert(is_digit(whole[0]));
    assert forall|k: int| 0 <= k < whole.len() implies #[trigger] text[k] != '.' by {
        assert(text[k] == whole[k]);
        assert(is_digit(whole[k]));
    }
    lemma_point_at_is(text, whole.len());
    assert(whole_part(text) =~= whole);
    assert(fractional_part(text) =~= fraction);
    assert(digits_value(Seq::<char>::empty()) == 0);
    assert((decimals - fraction.len()) as nat == (padded.len() - fraction.len()) as nat);
}

/// An amount is worth the same however many places a unit has: with one place more, it is ten times
/// as many base units.
pub proof fn amounts_scale_with_the_places(text: Seq<char>, decimals: u8, n: u64)
    requires
        amount_of(text, decimals) == Ok::<u64, Error>(n),
        decimals < MAX_DECIMALS,
        10 * n <= u64::MAX,
    ensures
        amount_of(text, (decimals + 1) as u8) == Ok::<u64, Error>((10 * n) as u64),
{
    let d = decimals as nat;
    let whole = whole_part(text);
    let fraction = fractional_part(text);
    let k = (d - fraction.len()) as nat;
    let w = digits_value(whole);
    let f = digits_value(fraction);
    assert((decimals + 1 - fraction.len()) as nat == k + 1);
    assert(pow10(d + 1) == 10 * pow10(d));
    assert(pow10(k + 1) == 10 * pow10(k));
    let p = pow10(d);
    let q = pow10(k);
    assert(w * (10 * p) + f * (10 * q) == 10 * (w * p + f * q)) by (nonlinear_arith);
}

/// A whole number is an amount of so many units, with or without a point behind it.
pub proof fn whole_numbers_are_amounts(n: u64)
    ensures
        amount_of(number_text(n as nat), 0) == Ok::<u64, Error>(n),
        amount_text(n, 0) == number_text(n as nat),
{
    amount_round_trip(n, 0);
    assert(pow10(0) == 1);
    let m = n as nat;
    assert(m / 1 == m && m % 1 == 0);
    assert(padded_text(0, 0).len() == 0);
    assert(without_zeros(padded_text(0, 0)).len() == 0);
}

/// More places than a unit has are refused: nothing is rounded.
pub proof fn nothing_is_rounded(whole: Seq<char>, fraction: Seq<char>, decimals: u8)
    requires
        all_digits(whole),
        whole.len() > 0,
        fraction.len() > decimals,
    ensures
        amount_of(whole + seq!['.'] + fraction, decimals) is Err,
{
    let text = whole + seq!['.'] + fraction;
    assert forall|k: int| 0 <= k < whole.len() implies #[trigger] text[k] != '.' by {
        assert(text[k] == whole[k]);
        assert(is_digit(whole[k]));
    }
    lemma_point_at_is(text, whole.len());
    assert(fractional_part(text) =~= fraction);
}

} // verus!
