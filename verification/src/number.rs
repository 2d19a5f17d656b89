//! A double shown to two decimal places.
//!
//! A double travels as its bits. What it stands for is a whole number times a
//! power of two, so the nearest hundredth is a whole number too, and it is
//! worked out in whole numbers.

use vstd::arithmetic::power2::pow2;
#[allow(unused_imports)]
use vstd::arithmetic::power2::{
    lemma2_to64, lemma2_to64_rest, lemma_pow2_adds, lemma_pow2_pos, lemma_pow2_strictly_increases,
    lemma_pow2_unfold,
};
use vstd::prelude::*;

#[allow(unused_imports)]
use crate::recognise::proportion::nearest_quotient;
use crate::text::{decimal, digit_of};
#[allow(unused_imports)]
use crate::text::{decimal_text, digit};

verus! {

/// The lowest bit pattern with its sign set.
pub const SIGN: u64 = 0x8000_0000_0000_0000;

/// How many fractions one exponent is divided into.
pub const STEPS: u64 = 0x10_0000_0000_0000;

/// The exponent of what is no number, or beyond any.
pub const BEYOND: u64 = 0x7ff;

/// The exponent a double's bits hold.
pub open spec fn exponent(bits: u64) -> nat {
    ((bits % SIGN) / STEPS) as nat
}

/// The whole number a double is a power of two times.
pub open spec fn mantissa(bits: u64) -> nat {
    if exponent(bits) == 0 {
        (bits % STEPS) as nat
    } else {
        (bits % STEPS + STEPS) as nat
    }
}

/// The power of two a double is its whole number times.
pub open spec fn power(bits: u64) -> int {
    if exponent(bits) == 0 {
        -1074
    } else {
        exponent(bits) - 1075
    }
}

/// How many hundredths a double is nearest to, its sign left out, and the even
/// one of two numbers that are equally near.
pub open spec fn hundredths(bits: u64) -> nat {
    if power(bits) >= 0 {
        100 * (mantissa(bits) * pow2(power(bits) as nat))
    } else {
        nearest_quotient(100 * mantissa(bits), pow2((-power(bits)) as nat))
    }
}

/// A number of hundredths with two places after the point.
pub open spec fn with_two_places(hundredths: nat) -> Seq<char> {
    decimal_text(hundredths / 100) + "."@ + seq![
        digit((hundredths % 100 / 10) as int),
        digit((hundredths % 10) as int),
    ]
}

/// A double shown to two decimal places.
pub open spec fn shown(bits: u64) -> Seq<char> {
    let sign = if bits >= SIGN {
        "-"@
    } else {
        Seq::empty()
    };
    if exponent(bits) == BEYOND && bits % STEPS != 0 {
        "NaN"@
    } else if exponent(bits) == BEYOND {
        sign + "inf"@
    } else {
        sign + with_two_places(hundredths(bits))
    }
}

/// The number some digits spell, the lowest first.
pub open spec fn spelled_number(digits: Seq<u8>) -> nat
    decreases digits.len(),
{
    if digits.len() == 0 {
        0
    } else {
        (digits[0] + 10 * spelled_number(digits.drop_first())) as nat
    }
}

/// Whether these are the digits of a number above nought, the lowest first.
pub open spec fn are_digits(digits: Seq<u8>) -> bool {
    &&& digits.len() > 0
    &&& digits.last() > 0
    &&& forall|i: int| 0 <= i < digits.len() ==> #[trigger] digits[i] < 10
}

proof fn lemma_spelled_above_nought(digits: Seq<u8>)
    requires
        are_digits(digits),
    ensures
        spelled_number(digits) > 0,
    decreases digits.len(),
{
    let rest = digits.drop_first();
    if rest.len() > 0 {
        assert(rest.last() == digits.last());
        lemma_spelled_above_nought(rest);
    }
}

/// Digits are written as the number they spell.
proof fn lemma_written_from_the_top(digits: Seq<u8>)
    requires
        are_digits(digits),
    ensures
        digits.len() == 1 ==> decimal_text(spelled_number(digits)) == seq![
            digit(digits[0] as int),
        ],
        digits.len() > 1 ==> decimal_text(spelled_number(digits)) == decimal_text(
            spelled_number(digits.drop_first()),
        ).push(digit(digits[0] as int)),
{
    let rest = digits.drop_first();
    reveal_with_fuel(spelled_number, 2);
    if digits.len() > 1 {
        assert(rest.last() == digits.last());
        assert(are_digits(rest));
        lemma_spelled_above_nought(rest);
        let n = spelled_number(digits);
        let m = spelled_number(rest);
        assert(n == digits[0] + 10 * m);
        assert(n / 10 == m && n % 10 == digits[0]) by (nonlinear_arith)
            requires
                n == digits[0] + 10 * m,
                digits[0] < 10,
        ;
    }
}

proof fn lemma_one_digit_more(digits: Seq<u8>, top: u8)
    ensures
        spelled_number(digits.push(top)) == spelled_number(digits) + top * pow10(
            digits.len(),
        ),
    decreases digits.len(),
{
    if digits.len() == 0 {
        reveal_with_fuel(spelled_number, 2);
        assert(digits.push(top).drop_first() =~= Seq::empty());
        assert(top * pow10(0) == top) by (nonlinear_arith)
            requires
                pow10(0) == 1,
        ;
    } else {
        let rest = digits.drop_first();
        lemma_one_digit_more(rest, top);
        assert(digits.push(top).drop_first() =~= rest.push(top));
        assert(10 * (top * pow10(rest.len())) == top * pow10(digits.len())) by (nonlinear_arith)
            requires
                pow10(digits.len()) == 10 * pow10(rest.len()),
        ;
    }
}

/// Ten to a power.
spec fn pow10(n: nat) -> nat
    decreases n,
{
    if n == 0 {
        1
    } else {
        10 * pow10((n - 1) as nat)
    }
}

/// The digits of a number above nought, the lowest first.
fn digits_of(n: u64) -> (digits: Vec<u8>)
    requires
        n > 0,
    ensures
        are_digits(digits@),
        spelled_number(digits@) == n,
{
    let mut digits: Vec<u8> = Vec::new();
    let mut left: u64 = n;
    let ghost mut scale: nat = 1;
    assert(left * scale == n) by (nonlinear_arith)
        requires
            left == n,
            scale == 1,
    ;
    while left > 0
        invariant
            scale == pow10(digits@.len()),
            spelled_number(digits@) + left * scale == n,
            forall|i: int| 0 <= i < digits@.len() ==> #[trigger] digits@[i] < 10,
            left == 0 ==> digits@.len() > 0 && digits@.last() > 0,
            n > 0,
        decreases left,
    {
        let low = (left % 10) as u8;
        let ghost before = digits@;
        proof {
            lemma_one_digit_more(before, low);
            let next = left / 10;
            assert(left * scale == low * scale + next * (10 * scale)) by (nonlinear_arith)
                requires
                    left == next * 10 + low,
            ;
            assert(pow10(before.len() + 1) == 10 * scale);
            scale = 10 * scale;
        }
        digits.push(low);
        left = left / 10;
    }
    assert(spelled_number(digits@) == n) by (nonlinear_arith)
        requires
            spelled_number(digits@) + left * scale == n,
            left == 0,
    ;
    digits
}

/// The digits of twice a number.
fn double(digits: &mut Vec<u8>)
    requires
        are_digits(old(digits)@),
    ensures
        are_digits(final(digits)@),
        spelled_number(final(digits)@) == 2 * spelled_number(old(digits)@),
{
    let ghost before = digits@;
    let mut doubled: Vec<u8> = Vec::new();
    let mut carry: u8 = 0;
    let ghost mut scale: nat = 1;
    let mut i: usize = 0;
    assert(before.take(0) =~= Seq::<u8>::empty());
    while i < digits.len()
        invariant
            i <= digits@.len(),
            digits@ == before,
            are_digits(before),
            doubled@.len() == i,
            carry <= 1,
            scale == pow10(i as nat),
            spelled_number(doubled@) + carry * scale == 2 * spelled_number(before.take(i as int)),
            forall|j: int| 0 <= j < doubled@.len() ==> #[trigger] doubled@[j] < 10,
            i == digits@.len() ==> carry == 1 || doubled@.last() > 0,
        decreases digits@.len() - i,
    {
        let twice = digits[i] * 2 + carry;
        let low = twice % 10;
        let next: u8 = twice / 10;
        let ghost so_far = doubled@;
        proof {
            let d = before[i as int];
            lemma_one_digit_more(so_far, low);
            lemma_one_digit_more(before.take(i as int), d);
            assert(before.take(i as int).push(d) =~= before.take(i + 1));
            assert(low * scale + next * (10 * scale) == 2 * (d * scale) + carry * scale)
                by (nonlinear_arith)
                requires
                    low + next * 10 == d * 2 + carry,
            ;
            assert(pow10((i + 1) as nat) == 10 * scale);
            scale = 10 * scale;
        }
        doubled.push(low);
        carry = next;
        i += 1;
    }
    assert(before.take(i as int) =~= before);
    if carry > 0 {
        proof {
            lemma_one_digit_more(doubled@, carry);
        }
        doubled.push(carry);
    } else {
        assert(carry * scale == 0) by (nonlinear_arith)
            requires
                carry == 0,
        ;
    }
    *digits = doubled;
}

/// A number times a power of two, written in decimal.
fn written_times_power(n: u64, power: u32) -> (text: String)
    requires
        n > 0,
    ensures
        text@ == decimal_text(n as nat * pow2(power as nat)),
{
    let mut digits = digits_of(n);
    let mut i: u32 = 0;
    proof {
        lemma2_to64();
        assert(n as nat * pow2(0) == n) by (nonlinear_arith)
            requires
                pow2(0) == 1,
        ;
    }
    while i < power
        invariant
            i <= power,
            are_digits(digits@),
            spelled_number(digits@) == n as nat * pow2(i as nat),
        decreases power - i,
    {
        proof {
            lemma_pow2_unfold((i + 1) as nat);
            assert(n as nat * pow2((i + 1) as nat) == 2 * (n as nat * pow2(i as nat)))
                by (nonlinear_arith)
                requires
                    pow2((i + 1) as nat) == 2 * pow2(i as nat),
            ;
        }
        double(&mut digits);
        i += 1;
    }
    let mut left = digits.len() - 1;
    let mut text = String::new();
    text.push(digit_of(digits[left] as u64));
    proof {
        let top = digits@.skip(left as int);
        assert(top.last() == digits@.last());
        lemma_written_from_the_top(top);
        assert(text@ =~= decimal_text(spelled_number(top)));
    }
    while left > 0
        invariant
            left < digits@.len(),
            are_digits(digits@),
            text@ == decimal_text(spelled_number(digits@.skip(left as int))),
        decreases left,
    {
        proof {
            let next = digits@.skip(left - 1);
            assert(next.last() == digits@.last());
            assert(next.drop_first() =~= digits@.skip(left as int));
            lemma_written_from_the_top(next);
        }
        left -= 1;
        text.push(digit_of(digits[left] as u64));
    }
    assert(digits@.skip(0) =~= digits@);
    text
}

fn power_of_two(n: u32) -> (value: u64)
    requires
        n < 64,
    ensures
        value == pow2(n as nat),
{
    let mut value: u64 = 1;
    let mut i: u32 = 0;
    proof {
        lemma2_to64();
        lemma2_to64_rest();
    }
    while i < n
        invariant
            i <= n < 64,
            value == pow2(i as nat),
            pow2(63) == 0x8000_0000_0000_0000,
        decreases n - i,
    {
        proof {
            lemma_pow2_unfold((i + 1) as nat);
            if i + 1 < 63 {
                lemma_pow2_strictly_increases((i + 1) as nat, 63);
            }
        }
        value = value * 2;
        i += 1;
    }
    value
}

/// Nothing is nearer to a fraction below a half than nought.
proof fn lemma_below_a_half(n: nat, k: nat)
    requires
        n < pow2(61),
        k >= 62,
    ensures
        nearest_quotient(n, pow2(k)) == 0,
{
    lemma_pow2_unfold(62);
    if k > 62 {
        lemma_pow2_strictly_increases(62, k);
    }
    let q = pow2(k);
    assert(n / q == 0 && n % q == n) by (nonlinear_arith)
        requires
            0 <= n < q,
    ;
}

/// How many hundredths a double below two to the fifty-third is nearest to.
fn near_hundredths(whole: u64, halvings: u32) -> (near: u64)
    requires
        whole < 0x20_0000_0000_0000,
        halvings > 0,
    ensures
        near == nearest_quotient(100 * whole as nat, pow2(halvings as nat)),
        near <= 100 * whole + 1,
{
    let n: u64 = whole * 100;
    proof {
        lemma2_to64();
        lemma2_to64_rest();
    }
    if halvings >= 62 {
        proof {
            lemma_below_a_half(n as nat, halvings as nat);
        }
        return 0;
    }
    let q = power_of_two(halvings);
    proof {
        if halvings < 61 {
            lemma_pow2_strictly_increases(halvings as nat, 61);
        }
        lemma_pow2_pos(halvings as nat);
    }
    let below = n / q;
    let over = 2 * (n % q);
    assert(below <= n) by (nonlinear_arith)
        requires
            below == n / q,
            q >= 1,
    ;
    if over < q || (over == q && below % 2 == 0) {
        below
    } else {
        below + 1
    }
}

fn two_places(hundredths: u64) -> (text: String)
    ensures
        text@ == with_two_places(hundredths as nat),
{
    let mut text = decimal(hundredths / 100);
    text.append(".");
    text.push(digit_of(hundredths % 100 / 10));
    text.push(digit_of(hundredths % 10));
    assert(text@ =~= with_two_places(hundredths as nat));
    text
}

/// A double shown to two decimal places, the double by its bits.
pub fn show(bits: u64) -> (text: String)
    ensures
        text@ == shown(bits),
{
    let exponent: u64 = (bits % SIGN) / STEPS;
    let fraction: u64 = bits % STEPS;
    assert(exponent <= BEYOND) by (nonlinear_arith)
        requires
            exponent == (bits % SIGN) / STEPS,
            SIGN == 0x8000_0000_0000_0000,
            STEPS == 0x10_0000_0000_0000,
    ;
    if exponent == BEYOND && fraction != 0 {
        return String::from_str("NaN");
    }
    let mut text = if bits >= SIGN {
        String::from_str("-")
    } else {
        String::new()
    };
    let ghost sign = text@;
    if exponent == BEYOND {
        text.append("inf");
        assert(sign + "inf"@ == shown(bits));
        return text;
    }
    if exponent >= 1075 {
        let whole = fraction + STEPS;
        let power = (exponent - 1075) as u32;
        text.append(written_times_power(whole, power).as_str());
        text.append(".00");
        proof {
            let n = mantissa(bits) * pow2(power as nat);
            assert(100 * n / 100 == n && 100 * n % 100 == 0 && 100 * n % 10 == 0)
                by (nonlinear_arith);
            reveal_strlit(".00");
            reveal_strlit(".");
            assert(".00"@ =~= "."@ + seq![digit(0), digit(0)]);
            assert(text@ =~= sign + with_two_places(hundredths(bits)));
        }
        return text;
    }
    let whole = if exponent == 0 {
        fraction
    } else {
        fraction + STEPS
    };
    let halvings = if exponent == 0 {
        1074u32
    } else {
        (1075 - exponent) as u32
    };
    text.append(two_places(near_hundredths(whole, halvings)).as_str());
    assert(text@ == sign + with_two_places(hundredths(bits)));
    text
}

// What a shown double promises.

/// The bits of a double are a sign, an exponent and a fraction. The double is a
/// whole number times a power of two: the fraction with one more bit above it,
/// and the fraction alone where the exponent is nought.
pub proof fn law_what_the_bits_of_a_double_are(sign: u64, above: u64, fraction: u64)
    requires
        sign < 2,
        above < 2048,
        fraction < 0x10_0000_0000_0000,
    ensures
        ({
            let bits = (sign * 0x8000_0000_0000_0000 + above * 0x10_0000_0000_0000
                + fraction) as u64;
            &&& exponent(bits) == above
            &&& above == 0 ==> mantissa(bits) == fraction && power(bits) == -1074
            &&& above > 0 ==> mantissa(bits) == fraction + 0x10_0000_0000_0000 && power(bits)
                == above - 1075
        }),
{
    let low = above * 0x10_0000_0000_0000 + fraction;
    assert(low < 0x8000_0000_0000_0000);
    assert(low / 0x10_0000_0000_0000 == above && low % 0x10_0000_0000_0000 == fraction);
    let bits = (sign * 0x8000_0000_0000_0000 + low) as u64;
    assert(bits % SIGN == low);
    assert(bits % STEPS == fraction);
}

/// A double is shown by the hundredths nearest to it: exactly where it is a whole
/// number, and otherwise no further than half of one away, the even one of two
/// that are as near.
pub proof fn law_the_nearest_hundredths_are_shown(bits: u64)
    ensures
        power(bits) >= 0 ==> hundredths(bits) == 100 * mantissa(bits) * pow2(power(bits) as nat),
        power(bits) < 0 ==> {
            let step = pow2((-power(bits)) as nat);
            &&& 2 * (hundredths(bits) * step) <= 2 * (100 * mantissa(bits)) + step
            &&& 2 * (hundredths(bits) * step) + step >= 2 * (100 * mantissa(bits))
            &&& 2 * (hundredths(bits) * step) == 2 * (100 * mantissa(bits)) + step || 2 * (
            hundredths(bits) * step) + step == 2 * (100 * mantissa(bits)) ==> hundredths(bits) % 2
                == 0
        },
{
    if power(bits) >= 0 {
        let m = mantissa(bits);
        let p = pow2(power(bits) as nat);
        assert(100 * (m * p) == 100 * m * p) by (nonlinear_arith);
    } else {
        let step = pow2((-power(bits)) as nat);
        vstd::arithmetic::power2::lemma_pow2_pos((-power(bits)) as nat);
        let n = 100 * mantissa(bits);
        vstd::arithmetic::div_mod::lemma_fundamental_div_mod(n as int, step as int);
        let below = n / step;
        assert(below * step == step * below && (below + 1) * step == step * below + step)
            by (nonlinear_arith);
    }
}

/// A number of hundredths is shown as its whole part, a point and two digits.
pub proof fn law_two_places_are_shown(whole: nat, tenths: nat, rest: nat)
    requires
        tenths < 10,
        rest < 10,
    ensures
        with_two_places(100 * whole + 10 * tenths + rest) == decimal_text(whole) + seq![
            '.',
            digit(tenths as int),
            digit(rest as int),
        ],
{
    let n = 100 * whole + 10 * tenths + rest;
    assert(n / 100 == whole && n % 100 == 10 * tenths + rest && n % 10 == rest);
    assert((10 * tenths + rest) / 10 == tenths);
    reveal_strlit(".");
    assert(with_two_places(n) =~= decimal_text(whole) + seq![
        '.',
        digit(tenths as int),
        digit(rest as int),
    ]);
}

/// A double below nought is shown as its opposite with a minus before it, one
/// beyond any number as such, and what is no number without a sign.
pub proof fn law_how_a_double_is_shown(bits: u64)
    requires
        bits < 0x8000_0000_0000_0000,
    ensures
        bits < 0x7ff0_0000_0000_0000 ==> shown(bits) == with_two_places(hundredths(bits)),
        bits == 0x7ff0_0000_0000_0000 ==> shown(bits) == "inf"@,
        bits > 0x7ff0_0000_0000_0000 ==> shown(bits) == "NaN"@ && shown(
            (bits + 0x8000_0000_0000_0000) as u64,
        ) == "NaN"@,
        bits <= 0x7ff0_0000_0000_0000 ==> shown((bits + 0x8000_0000_0000_0000) as u64) == seq!['-']
            + shown(bits),
{
    let other = (bits + 0x8000_0000_0000_0000) as u64;
    assert(other % SIGN == bits && bits % SIGN == bits);
    assert(other % STEPS == bits % STEPS);
    reveal_strlit("-");
    assert("-"@ =~= seq!['-']);
    assert(hundredths(other) == hundredths(bits));
    assert(Seq::<char>::empty() + "inf"@ =~= "inf"@);
    assert(Seq::<char>::empty() + with_two_places(hundredths(bits)) =~= with_two_places(
        hundredths(bits),
    ));
}

} // verus!
