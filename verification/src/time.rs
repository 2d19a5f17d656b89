//! Spans of time, counted in whole nanoseconds.

use vstd::prelude::*;

use crate::text::{decimal, digit_of};
#[allow(unused_imports)]
use crate::text::{decimal_text, digit};

verus! {

/// How many nanoseconds one second holds.
pub const NANOS_PER_SEC: u128 = 1_000_000_000;

/// The longest span there is: as many seconds as sixty-four bits count, and all
/// but one nanosecond of one more.
pub const LONGEST_SPAN: u128 = 18_446_744_073_709_551_615_999_999_999;

/// A span of time.
#[derive(Debug, Clone, Copy, PartialEq, Eq, PartialOrd, Ord, Hash)]
pub struct Duration {
    nanos: u128,
}

impl View for Duration {
    type V = nat;

    closed spec fn view(&self) -> nat {
        self.nanos as nat
    }
}

impl Duration {
    #[verifier::type_invariant]
    spec fn in_range(self) -> bool {
        self.nanos <= LONGEST_SPAN
    }

    /// No time at all.
    pub fn zero() -> (span: Self)
        ensures
            span@ == 0,
    {
        Self { nanos: 0 }
    }

    /// A span of whole seconds and some nanoseconds.
    pub fn new(secs: u64, nanos: u32) -> (span: Self)
        requires
            secs * NANOS_PER_SEC + nanos <= LONGEST_SPAN,
        ensures
            span@ == secs * NANOS_PER_SEC + nanos,
    {
        Self { nanos: (secs as u128) * NANOS_PER_SEC + nanos as u128 }
    }

    /// A span of whole hours.
    pub fn from_hours(hours: u64) -> (span: Self)
        requires
            hours * 3600 <= u64::MAX,
        ensures
            span@ == hours * 3600 * NANOS_PER_SEC,
    {
        Self { nanos: (hours as u128) * 3600 * NANOS_PER_SEC }
    }

    /// A span of whole minutes.
    pub fn from_mins(mins: u64) -> (span: Self)
        requires
            mins * 60 <= u64::MAX,
        ensures
            span@ == mins * 60 * NANOS_PER_SEC,
    {
        Self { nanos: (mins as u128) * 60 * NANOS_PER_SEC }
    }

    /// A span of whole seconds.
    pub fn from_secs(secs: u64) -> (span: Self)
        ensures
            span@ == secs * NANOS_PER_SEC,
    {
        Self { nanos: (secs as u128) * NANOS_PER_SEC }
    }

    /// A span of whole milliseconds.
    pub fn from_millis(millis: u64) -> (span: Self)
        ensures
            span@ == millis * 1_000_000,
    {
        Self { nanos: (millis as u128) * 1_000_000 }
    }

    /// A span of whole microseconds.
    pub fn from_micros(micros: u64) -> (span: Self)
        ensures
            span@ == micros * 1_000,
    {
        Self { nanos: (micros as u128) * 1_000 }
    }

    /// A span of whole nanoseconds.
    pub fn from_nanos(nanos: u64) -> (span: Self)
        ensures
            span@ == nanos,
    {
        Self { nanos: nanos as u128 }
    }

    /// The whole span in nanoseconds.
    pub fn as_nanos(self) -> (nanos: u128)
        ensures
            nanos == self@,
            nanos <= LONGEST_SPAN,
    {
        proof {
            use_type_invariant(&self);
        }
        self.nanos
    }

    /// The whole seconds of the span.
    pub fn as_secs(self) -> (secs: u64)
        ensures
            secs == self@ / (NANOS_PER_SEC as nat),
    {
        proof {
            use_type_invariant(&self);
        }
        (self.nanos / NANOS_PER_SEC) as u64
    }

    /// What is left of the span once its whole seconds are off it.
    pub fn subsec_nanos(self) -> (nanos: u32)
        ensures
            nanos == self@ % (NANOS_PER_SEC as nat),
            nanos < NANOS_PER_SEC,
    {
        (self.nanos % NANOS_PER_SEC) as u32
    }

    /// Whether the span is no time at all.
    pub fn is_zero(self) -> (answer: bool)
        ensures
            answer == (self@ == 0),
    {
        self.nanos == 0
    }

    /// Whether this span is longer than another.
    pub fn exceeds(self, other: Self) -> (answer: bool)
        ensures
            answer == (self@ > other@),
    {
        self.nanos > other.nanos
    }

    /// What is left of a span once another is off it, and nothing where the
    /// other is longer.
    pub fn saturating_sub(self, other: Self) -> (span: Self)
        ensures
            span@ == less(self@, other@),
    {
        proof {
            use_type_invariant(&self);
        }
        if self.nanos > other.nanos {
            Self { nanos: self.nanos - other.nanos }
        } else {
            Self { nanos: 0 }
        }
    }

    /// Two spans together, and the longest span where they are longer still.
    pub fn saturating_add(self, other: Self) -> (span: Self)
        ensures
            span@ == more(self@, other@),
    {
        proof {
            use_type_invariant(&self);
            use_type_invariant(&other);
        }
        let nanos: u128 = self.nanos + other.nanos;
        if nanos > LONGEST_SPAN {
            Self { nanos: LONGEST_SPAN }
        } else {
            Self { nanos }
        }
    }

    /// Two spans together.
    pub fn plus(self, other: Self) -> (span: Self)
        requires
            self@ + other@ <= LONGEST_SPAN,
        ensures
            span@ == self@ + other@,
    {
        Self { nanos: self.nanos + other.nanos }
    }

    /// A span taken some number of times.
    pub fn times(self, count: u32) -> (span: Self)
        requires
            self@ * count <= LONGEST_SPAN,
        ensures
            span@ == self@ * count,
    {
        Self { nanos: self.nanos * (count as u128) }
    }

    /// One of so many equal parts of a span, less than a nanosecond short.
    pub fn divided_by(self, parts: u32) -> (span: Self)
        requires
            parts > 0,
        ensures
            span@ == self@ / (parts as nat),
    {
        proof {
            use_type_invariant(&self);
            assert(self.nanos / (parts as u128) <= self.nanos) by (nonlinear_arith)
                requires
                    parts > 0,
            ;
        }
        Self { nanos: self.nanos / (parts as u128) }
    }

    /// The shorter of two spans.
    pub fn min(self, other: Self) -> (span: Self)
        ensures
            span@ == if self@ <= other@ {
                self@
            } else {
                other@
            },
    {
        if self.nanos <= other.nanos {
            self
        } else {
            other
        }
    }

    /// The longer of two spans.
    pub fn max(self, other: Self) -> (span: Self)
        ensures
            span@ == if self@ >= other@ {
                self@
            } else {
                other@
            },
    {
        if self.nanos >= other.nanos {
            self
        } else {
            other
        }
    }
}

/// One span less another, and nothing where the other is longer.
pub open spec fn less(one: nat, other: nat) -> nat {
    if one > other {
        (one - other) as nat
    } else {
        0
    }
}

/// Two spans together, held to the longest there is.
pub open spec fn more(one: nat, other: nat) -> nat {
    if one + other > LONGEST_SPAN {
        LONGEST_SPAN as nat
    } else {
        one + other
    }
}

// Written form.

/// The last digits of a number, as many as are asked for.
pub open spec fn last_digits(n: nat, width: nat) -> Seq<char>
    decreases width,
{
    if width == 0 {
        Seq::empty()
    } else {
        last_digits(n / 10, (width - 1) as nat).push(digit((n % 10) as int))
    }
}

/// Digits without the noughts at their end.
pub open spec fn without_noughts(digits: Seq<char>) -> Seq<char>
    decreases digits.len(),
{
    if digits.len() > 0 && digits.last() == '0' {
        without_noughts(digits.drop_last())
    } else {
        digits
    }
}

/// A number of units and a fraction of one, where the fraction is so many digits
/// wide. A fraction of nought is not written.
pub open spec fn with_fraction(whole: nat, fraction: nat, width: nat) -> Seq<char> {
    if fraction == 0 {
        decimal_text(whole)
    } else {
        decimal_text(whole).push('.') + without_noughts(last_digits(fraction, width))
    }
}

/// A span in the largest unit it holds at least one of: seconds, milliseconds,
/// microseconds or nanoseconds.
pub open spec fn span_text(nanos: nat) -> Seq<char> {
    if nanos >= 1_000_000_000 {
        with_fraction(nanos / 1_000_000_000, nanos % 1_000_000_000, 9) + "s"@
    } else if nanos >= 1_000_000 {
        with_fraction(nanos / 1_000_000, nanos % 1_000_000, 6) + "ms"@
    } else if nanos >= 1_000 {
        with_fraction(nanos / 1_000, nanos % 1_000, 3) + "µs"@
    } else {
        decimal_text(nanos) + "ns"@
    }
}

fn digits_of(n: u64, width: u64) -> (digits: Vec<char>)
    ensures
        digits@ == last_digits(n as nat, width as nat),
    decreases width,
{
    if width == 0 {
        Vec::new()
    } else {
        let mut digits = digits_of(n / 10, width - 1);
        digits.push(digit_of(n % 10));
        digits
    }
}

fn write_with_fraction(whole: u64, fraction: u64, width: u64) -> (text: String)
    ensures
        text@ == with_fraction(whole as nat, fraction as nat, width as nat),
{
    let mut text = decimal(whole);
    if fraction == 0 {
        return text;
    }
    text.push('.');
    let mut digits = digits_of(fraction, width);
    let ghost all = digits@;
    while digits.len() > 0 && digits[digits.len() - 1] == '0'
        invariant
            without_noughts(all) == without_noughts(digits@),
        decreases digits@.len(),
    {
        let ghost before = digits@;
        digits.pop();
        assert(digits@ =~= before.drop_last());
    }
    let ghost head = text@;
    let mut i: usize = 0;
    assert(head + digits@.take(0) =~= head);
    while i < digits.len()
        invariant
            i <= digits@.len(),
            text@ == head + digits@.take(i as int),
        decreases digits@.len() - i,
    {
        text.push(digits[i]);
        i += 1;
        assert(text@ =~= head + digits@.take(i as int));
    }
    assert(digits@.take(i as int) =~= digits@);
    text
}

impl Duration {
    /// The span written out: `1.5s`, `250ms`, `3µs`, `7ns`.
    pub fn written(self) -> (text: String)
        ensures
            text@ == span_text(self@),
    {
        let nanos = self.as_nanos();
        if nanos >= 1_000_000_000 {
            let mut text = write_with_fraction(
                (nanos / 1_000_000_000) as u64,
                (nanos % 1_000_000_000) as u64,
                9,
            );
            text.append("s");
            text
        } else if nanos >= 1_000_000 {
            let mut text = write_with_fraction(
                (nanos / 1_000_000) as u64,
                (nanos % 1_000_000) as u64,
                6,
            );
            text.append("ms");
            text
        } else if nanos >= 1_000 {
            let mut text = write_with_fraction((nanos / 1_000) as u64, (nanos % 1_000) as u64, 3);
            text.append("µs");
            text
        } else {
            let mut text = decimal(nanos as u64);
            text.append("ns");
            text
        }
    }
}

// What spans promise.

/// What is taken off a span and put back is the span, as long as it was no
/// longer than it. Nothing is left of a span when as much or more is taken off.
pub proof fn law_what_is_taken_off_can_be_put_back(one: nat, other: nat)
    requires
        one + other <= LONGEST_SPAN,
    ensures
        less(more(one, other), other) == one,
        one <= other ==> less(one, other) == 0,
        more(one, other) == one + other,
{
}

/// Two spans together are never longer than the longest there is, and are it
/// where they would be.
pub proof fn law_a_span_stops_at_the_longest(one: nat, other: nat)
    requires
        one + other >= LONGEST_SPAN,
    ensures
        more(one, other) == LONGEST_SPAN,
{
}

/// A span is written in the largest unit it holds one of: a whole number of
/// seconds as seconds, and below a second a whole number of milliseconds,
/// microseconds or nanoseconds as those.
pub proof fn law_a_span_is_written_in_its_largest_unit(units: nat)
    requires
        units > 0,
    ensures
        span_text(units * 1_000_000_000) == decimal_text(units) + "s"@,
        units < 1_000 ==> span_text(units * 1_000_000) == decimal_text(units) + "ms"@,
        units < 1_000 ==> span_text(units * 1_000) == decimal_text(units) + "µs"@,
        units < 1_000 ==> span_text(units) == decimal_text(units) + "ns"@,
{
}

/// A span between two whole numbers of its unit is written with a point and the
/// digits behind it, as many as the unit has below it, without the noughts at
/// their end.
pub proof fn law_a_fraction_is_written_behind_a_point(units: nat, rest: nat)
    requires
        units > 0,
        rest > 0,
    ensures
        rest < 1_000_000_000 ==> span_text(units * 1_000_000_000 + rest) == decimal_text(
            units,
        ).push('.') + without_noughts(last_digits(rest, 9)) + "s"@,
        units < 1_000 && rest < 1_000_000 ==> span_text(units * 1_000_000 + rest) == decimal_text(
            units,
        ).push('.') + without_noughts(last_digits(rest, 6)) + "ms"@,
        units < 1_000 && rest < 1_000 ==> span_text(units * 1_000 + rest) == decimal_text(
            units,
        ).push('.') + without_noughts(last_digits(rest, 3)) + "µs"@,
{
}

/// The last digits of a number are as many as were asked for, and the last of
/// them is the last of the number.
pub proof fn law_last_digits_are_the_last(n: nat, last: nat, width: nat)
    requires
        last < 10,
    ensures
        last_digits(n, width).len() == width,
        last_digits(10 * n + last, width + 1) == last_digits(n, width).push(digit(last as int)),
    decreases width,
{
    assert((10 * n + last) / 10 == n && (10 * n + last) % 10 == last);
    if width > 0 {
        law_last_digits_are_the_last(n / 10, n % 10, (width - 1) as nat);
    }
}

/// Digits lose the noughts at their end, all of them, and nothing else.
pub proof fn law_only_noughts_are_lost(digits: Seq<char>)
    ensures
        without_noughts(digits).len() <= digits.len(),
        without_noughts(digits) == digits.take(without_noughts(digits).len() as int),
        forall|i: int| without_noughts(digits).len() <= i < digits.len() ==> digits[i] == '0',
        without_noughts(digits).len() > 0 ==> without_noughts(digits).last() != '0',
    decreases digits.len(),
{
    if digits.len() > 0 && digits.last() == '0' {
        let shorter = digits.drop_last();
        law_only_noughts_are_lost(shorter);
        assert(shorter.take(without_noughts(shorter).len() as int) =~= digits.take(
            without_noughts(digits).len() as int,
        ));
        assert forall|i: int| without_noughts(digits).len() <= i < digits.len() implies digits[i]
            == '0' by {
            if i < shorter.len() {
                assert(shorter[i] == digits[i]);
            }
        }
    } else {
        assert(digits.take(digits.len() as int) =~= digits);
    }
}

} // verus!
