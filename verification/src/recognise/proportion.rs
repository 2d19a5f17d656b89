//! Proportions, held as the bits of a double.
//!
//! A proportion is a number from nought to one as IEEE 754 writes it in sixty-four
//! bits: a biased exponent above a fraction of fifty-two bits. Between nought and
//! one the bits order as the numbers do.

use core::cmp::Ordering;

use vstd::arithmetic::power2::*;
use vstd::prelude::*;

verus! {

/// The bits of one.
pub const ONE: u64 = 0x3ff0_0000_0000_0000;

/// The bits of nought with a minus sign, which is nought all the same.
pub const MINUS_NOUGHT: u64 = 0x8000_0000_0000_0000;

/// How many fractions there are to one exponent.
pub const FRACTIONS: u64 = 0x10_0000_0000_0000;

/// Whether these are the bits of a number from nought to one.
pub open spec fn is_proportion(bits: u64) -> bool {
    bits <= ONE || bits == MINUS_NOUGHT
}

/// The same bits with nought written one way.
pub open spec fn unsigned_bits(bits: u64) -> u64 {
    if bits == MINUS_NOUGHT {
        0
    } else {
        bits
    }
}

/// How well a candidate title matched, from nothing to exactly.
///
/// A proportion and nothing else can be one, so it is checked on the way in and
/// private afterwards. **Refused rather than clamped**, for the reason
/// [`WatchedPolicyError`](crate::timeline::WatchedPolicyError) gives: a number
/// quietly moved into range makes an explanation disagree with what actually
/// happened, and the whole purpose of carrying a score is to be believed.
#[derive(Debug, Clone, Copy)]
pub struct Score {
    bits: u64,
}

impl View for Score {
    type V = u64;

    closed spec fn view(&self) -> u64 {
        self.bits
    }
}

impl Score {
    #[verifier::type_invariant]
    spec fn in_range(self) -> bool {
        is_proportion(self.bits)
    }

    /// A score, or nothing where the value is not a proportion.
    ///
    /// The value is given as the bits of a double. A value that is not a number
    /// is refused along with the rest.
    pub fn new(value: u64) -> (score: Option<Self>)
        ensures
            match score {
                Some(made) => is_proportion(value) && made@ == value,
                None => !is_proportion(value),
            },
    {
        if value <= ONE || value == MINUS_NOUGHT {
            Some(Self { bits: value })
        } else {
            None
        }
    }

    /// The proportion, as the bits of a double, for a caller that has to render
    /// or compare it.
    pub fn value(self) -> (value: u64)
        ensures
            value == self@,
            is_proportion(value),
    {
        proof {
            use_type_invariant(&self);
        }
        self.bits
    }
}

impl PartialEq for Score {
    fn eq(&self, other: &Self) -> (answer: bool) {
        zero_as_one_number(self.bits) == zero_as_one_number(other.bits)
    }
}

impl vstd::std_specs::cmp::PartialEqSpecImpl for Score {
    open spec fn obeys_eq_spec() -> bool {
        true
    }

    open spec fn eq_spec(&self, other: &Self) -> bool {
        unsigned_bits(self@) == unsigned_bits(other@)
    }
}

impl PartialOrd for Score {
    fn partial_cmp(&self, other: &Self) -> (order: Option<Ordering>) {
        let one = zero_as_one_number(self.bits);
        let another = zero_as_one_number(other.bits);
        if one < another {
            Some(Ordering::Less)
        } else if one == another {
            Some(Ordering::Equal)
        } else {
            Some(Ordering::Greater)
        }
    }
}

impl vstd::std_specs::cmp::PartialOrdSpecImpl for Score {
    open spec fn obeys_partial_cmp_spec() -> bool {
        true
    }

    open spec fn partial_cmp_spec(&self, other: &Self) -> Option<Ordering> {
        if unsigned_bits(self@) < unsigned_bits(other@) {
            Some(Ordering::Less)
        } else if unsigned_bits(self@) == unsigned_bits(other@) {
            Some(Ordering::Equal)
        } else {
            Some(Ordering::Greater)
        }
    }
}

fn zero_as_one_number(bits: u64) -> (unsigned: u64)
    ensures
        unsigned == unsigned_bits(bits),
{
    if bits == MINUS_NOUGHT {
        0
    } else {
        bits
    }
}

// The double nearest to a fraction.

/// The numerator of a fraction doubled until the fraction has fifty-three bits.
pub open spec fn scaled(n: nat, q: nat) -> nat
    decreases
        if n >= q * FRACTIONS {
            0
        } else {
            q * FRACTIONS - n
        },
    when n > 0
{
    if n >= q * FRACTIONS {
        n
    } else {
        scaled(2 * n, q)
    }
}

/// How often the numerator has to be doubled for that.
pub open spec fn doublings(n: nat, q: nat) -> nat
    decreases
        if n >= q * FRACTIONS {
            0
        } else {
            q * FRACTIONS - n
        },
    when n > 0
{
    if n >= q * FRACTIONS {
        0
    } else {
        1 + doublings(2 * n, q)
    }
}

/// The whole number nearest to a fraction, and the even one of two that are
/// equally near.
pub open spec fn nearest_quotient(n: nat, q: nat) -> nat {
    let below = n / q;
    let over = 2 * (n % q);
    if over < q || (over == q && below % 2 == 0) {
        below
    } else {
        below + 1
    }
}

/// The bits of the double nearest to a fraction between nought and one.
pub open spec fn nearest_double(p: nat, q: nat) -> int {
    if p == 0 {
        0
    } else {
        let n = p * FRACTIONS as nat;
        (1023 - doublings(n, q)) * FRACTIONS + nearest_quotient(scaled(n, q), q) - FRACTIONS
    }
}

/// What doubling comes to: a numerator within the last doubling of the mark,
/// unless it was past the mark to begin with.
proof fn lemma_scaled_reaches_the_mark(n: nat, q: nat)
    requires
        n > 0,
    ensures
        scaled(n, q) >= q * FRACTIONS,
        doublings(n, q) > 0 ==> scaled(n, q) < 2 * (q * FRACTIONS),
        doublings(n, q) == 0 ==> scaled(n, q) == n,
    decreases
        if n >= q * FRACTIONS {
            0
        } else {
            q * FRACTIONS - n
        },
{
    if n < q * FRACTIONS {
        lemma_scaled_reaches_the_mark(2 * n, q);
    }
}

/// A fraction below two to a power is a whole number below it or that power.
proof fn lemma_nearest_is_bounded(n: nat, q: nat, bound: nat)
    requires
        q > 0,
        n < q * bound,
    ensures
        nearest_quotient(n, q) <= bound,
{
    vstd::arithmetic::div_mod::lemma_fundamental_div_mod(n as int, q as int);
    assert(n / q < bound) by (nonlinear_arith)
        requires
            q > 0,
            n < q * bound,
            n == q * (n / q) + n % q,
            0 <= n % q,
    ;
}

/// A fraction of small numbers takes few doublings.
proof fn lemma_few_doublings(n: nat, q: nat, e: nat)
    requires
        n >= pow2(e),
        e <= 118,
        q * FRACTIONS < pow2(118),
    ensures
        doublings(n, q) <= 118 - e,
    decreases 118 - e,
{
    lemma_pow2_pos(e);
    if n < q * FRACTIONS {
        lemma_pow2_unfold(e + 1);
        lemma_few_doublings(2 * n, q, e + 1);
    }
}

/// The double nearest to a fraction from nought to one is a proportion. It is
/// nought exactly where the fraction is, and one exactly where the fraction is,
/// up to the denominators from which on a fraction may be nearer to one than to
/// any double below it.
pub proof fn law_the_nearest_double_is_a_proportion(p: nat, q: nat)
    requires
        0 < q <= 0x3_ffff_ffff_ffff_ffff,
        p <= q,
    ensures
        0 <= nearest_double(p, q) <= ONE,
        p == q ==> nearest_double(p, q) == ONE,
        q < 4 * FRACTIONS && nearest_double(p, q) == ONE ==> p == q,
        nearest_double(p, q) == 0 <==> p == 0,
{
    if p > 0 {
        let n = p * FRACTIONS as nat;
        assert(n > 0) by (nonlinear_arith)
            requires
                p > 0,
                n == p * 0x10_0000_0000_0000,
        ;
        assert(n <= q * FRACTIONS) by (nonlinear_arith)
            requires
                p <= q,
                n == p * 0x10_0000_0000_0000,
        ;
        lemma_scaled_reaches_the_mark(n, q);
        lemma2_to64();
        lemma2_to64_rest();
        lemma_pow2_adds(64, 54);
        lemma_few_doublings(n, q, 52);
        let k = doublings(n, q);
        let m = scaled(n, q);
        if k == 0 {
            assert(m == q * FRACTIONS);
            vstd::arithmetic::div_mod::lemma_div_multiples_vanish(FRACTIONS as int, q as int);
            vstd::arithmetic::div_mod::lemma_mod_multiples_basic(FRACTIONS as int, q as int);
            assert(q * FRACTIONS == FRACTIONS * q) by (nonlinear_arith);
            assert(nearest_quotient(m, q) == FRACTIONS);
        } else {
            assert(2 * (q * FRACTIONS) == q * (2 * FRACTIONS)) by (nonlinear_arith);
            lemma_nearest_is_bounded(m, q, (2 * FRACTIONS) as nat);
            assert(p < q) by {
                if p == q {
                    assert(n == q * FRACTIONS) by (nonlinear_arith)
                        requires
                            n == p * 0x10_0000_0000_0000,
                            p == q,
                    ;
                }
            }
            vstd::arithmetic::div_mod::lemma_fundamental_div_mod(m as int, q as int);
            assert(m / q >= FRACTIONS) by (nonlinear_arith)
                requires
                    q > 0,
                    m >= q * 0x10_0000_0000_0000,
                    m == q * (m / q) + m % q,
                    0 <= m % q < q,
            ;
            if q < 4 * FRACTIONS && k == 1 {
                lemma_scaled_reaches_the_mark(2 * n, q);
                lemma_less_than_one_rounds_below_it(p, q);
            }
        }
    }
}

/// One doubled fraction below one is not nearest to one.
proof fn lemma_less_than_one_rounds_below_it(p: nat, q: nat)
    requires
        p < q < 4 * FRACTIONS,
    ensures
        nearest_quotient(2 * (p * FRACTIONS as nat), q) < 2 * FRACTIONS,
{
    let m = 2 * (p * FRACTIONS as nat);
    let most: int = 2 * FRACTIONS;
    vstd::arithmetic::div_mod::lemma_fundamental_div_mod(m as int, q as int);
    assert(m <= q * most - most) by (nonlinear_arith)
        requires
            p + 1 <= q,
            m == 2 * (p * 0x10_0000_0000_0000),
            most == 0x20_0000_0000_0000,
    ;
    let below = m as int / q as int;
    let rest = m as int % q as int;
    assert(below <= most - 1) by (nonlinear_arith)
        requires
            q > 0,
            m == q * below + rest,
            0 <= rest,
            m <= q * most - most,
            most > 0,
    ;
    if below == most - 1 {
        assert(q * (most - 1) == q * most - q) by (nonlinear_arith);
        assert(rest <= q - most);
    }
}

/// The double nearest to a fraction between nought and one.
///
/// A numerator of two and a denominator of three give the double that dividing
/// the one by the other gives.
pub fn proportion(p: u128, q: u128) -> (score: Score)
    requires
        0 < q <= 0x3_ffff_ffff_ffff_ffff,
        p <= q,
    ensures
        score@ == nearest_double(p as nat, q as nat),
{
    if p == 0 {
        return Score { bits: 0 };
    }
    let top: u128 = q * 0x10_0000_0000_0000;
    let mut n: u128 = p * 0x10_0000_0000_0000;
    let mut k: u64 = 0;
    let ghost first = n as nat;
    proof {
        lemma2_to64();
        lemma2_to64_rest();
        lemma_pow2_adds(64, 54);
        assert(pow2(118) == 0x1_0000_0000_0000_0000 * 0x40_0000_0000_0000);
        lemma_few_doublings(first, q as nat, 52);
    }
    while n < top
        invariant
            q > 0,
            top == q * FRACTIONS,
            top < pow2(118) == 0x1_0000_0000_0000_0000 * 0x40_0000_0000_0000,
            first > 0,
            n > 0,
            n >= top ==> k == 0 || n < 2 * top,
            doublings(first, q as nat) <= 66,
            scaled(n as nat, q as nat) == scaled(first, q as nat),
            doublings(first, q as nat) == k + doublings(n as nat, q as nat),
        decreases
                if n >= top {
                    0
                } else {
                    top - n
                },
    {
        n = 2 * n;
        k = k + 1;
    }
    let below: u128 = n / q;
    let over: u128 = 2 * (n % q);
    let whole: u128 = if over < q || (over == q && below % 2 == 0) {
        below
    } else {
        below + 1
    };
    proof {
        law_the_nearest_double_is_a_proportion(p as nat, q as nat);
        lemma_scaled_reaches_the_mark(first, q as nat);
        assert(whole == nearest_quotient(n as nat, q as nat));
        assert(n < q * (2 * FRACTIONS + 1)) by (nonlinear_arith)
            requires
                q > 0,
                n <= 2 * (q * 0x10_0000_0000_0000),
                FRACTIONS == 0x10_0000_0000_0000,
        ;
        lemma_nearest_is_bounded(n as nat, q as nat, (2 * FRACTIONS + 1) as nat);
        vstd::arithmetic::div_mod::lemma_fundamental_div_mod(n as int, q as int);
        assert(n / q >= FRACTIONS) by (nonlinear_arith)
            requires
                q > 0,
                n >= q * FRACTIONS,
                n == q * (n / q) + n % q,
                0 <= n % q < q,
                FRACTIONS == 0x10_0000_0000_0000,
        ;
    }
    let bits: u64 = (1023 - k) * FRACTIONS + (whole as u64 - FRACTIONS);
    Score { bits }
}

// How far one proportion is ahead of another.

/// A proportion counted in the smallest steps a double can take.
pub open spec fn magnitude(bits: u64) -> nat {
    let exponent = bits / FRACTIONS;
    let fraction = bits % FRACTIONS;
    if exponent == 0 {
        fraction as nat
    } else {
        ((FRACTIONS + fraction) * pow2((exponent - 1) as nat)) as nat
    }
}

/// Whether a proportion is ahead of another by less than a third.
///
/// Stated of the numbers themselves. Where the second is at least half of the
/// first, subtracting one double from the other is exact; where it is less, the
/// distance is beyond any lead asked for and rounding it does not bring it back.
pub open spec fn leads_by_less_than(best: u64, next: u64, lead: u64) -> bool {
    magnitude(best) - magnitude(next) < magnitude(lead)
}

/// The least that is asked of a best score, as the bits of a double: 0.70.
pub const NEAR_ENOUGH: u64 = 0x3fe6_6666_6666_6666;

/// The wider of the two leads asked for, as the bits of a double: 0.20.
pub const WIDEST_LEAD: u64 = 0x3fc9_9999_9999_999a;

/// The bits of a sixteenth.
pub const SIXTEENTH: u64 = 0x3fb0_0000_0000_0000;

/// A proportion of a sixteenth or more, counted in the steps doubles take from
/// there on.
spec fn coarse_steps(bits: u64) -> int {
    let whole = FRACTIONS + bits % FRACTIONS;
    let exponent = bits / FRACTIONS;
    if exponent == 1019 {
        whole
    } else if exponent == 1020 {
        2 * whole
    } else if exponent == 1021 {
        4 * whole
    } else if exponent == 1022 {
        8 * whole
    } else {
        16 * whole
    }
}

proof fn lemma_coarse_steps_are_exact(bits: u64)
    requires
        SIXTEENTH <= bits <= ONE,
    ensures
        magnitude(bits) == coarse_steps(bits) * pow2(1018),
{
    let exponent = bits / FRACTIONS;
    let whole = FRACTIONS + bits % FRACTIONS;
    let factor = pow2((exponent - 1019) as nat);
    let unit = pow2(1018);
    lemma2_to64();
    lemma_pow2_adds((exponent - 1019) as nat, 1018);
    assert(factor == 1 || factor == 2 || factor == 4 || factor == 8 || factor == 16);
    assert(whole * (factor * unit) == (factor * whole) * unit) by (nonlinear_arith);
    assert(coarse_steps(bits) == factor * whole) by (nonlinear_arith)
        requires
            factor == 1 && coarse_steps(bits) == whole || factor == 2 && coarse_steps(bits) == 2
                * whole || factor == 4 && coarse_steps(bits) == 4 * whole || factor == 8
                && coarse_steps(bits) == 8 * whole || factor == 16 && coarse_steps(bits) == 16
                * whole,
    ;
}

fn coarse(bits: u64) -> (steps: u64)
    requires
        SIXTEENTH <= bits <= ONE,
    ensures
        steps == coarse_steps(bits),
        magnitude(bits) == steps * pow2(1018),
{
    let exponent: u64 = bits / FRACTIONS;
    let whole: u64 = FRACTIONS + bits % FRACTIONS;
    proof {
        lemma_coarse_steps_are_exact(bits);
    }
    if exponent == 1019 {
        whole
    } else if exponent == 1020 {
        2 * whole
    } else if exponent == 1021 {
        4 * whole
    } else if exponent == 1022 {
        8 * whole
    } else {
        16 * whole
    }
}

/// A proportion below a sixteenth is below a sixteenth.
proof fn lemma_small_magnitude(bits: u64)
    requires
        bits < SIXTEENTH,
    ensures
        magnitude(bits) < FRACTIONS * pow2(1018),
{
    let exponent = bits / FRACTIONS;
    lemma_pow2_pos(1018);
    if exponent == 0 {
        assert(FRACTIONS * pow2(1018) >= FRACTIONS) by (nonlinear_arith)
            requires
                pow2(1018) >= 1,
        ;
    } else {
        let e = (exponent - 1) as nat;
        lemma_pow2_pos(e);
        lemma_pow2_unfold(1018);
        if e < 1017 {
            lemma_pow2_strictly_increases(e, 1017);
        }
        let whole = FRACTIONS + bits % FRACTIONS;
        assert(whole * pow2(e) < FRACTIONS * pow2(1018)) by (nonlinear_arith)
            requires
                whole < 2 * FRACTIONS,
                0 < pow2(e) <= pow2(1017),
                pow2(1018) == 2 * pow2(1017),
                FRACTIONS == 0x10_0000_0000_0000,
        ;
    }
}

/// Whether a score that is near enough is ahead of the next one by less than a
/// lead.
pub fn leads_by_less(best: u64, next: u64, lead: u64) -> (answer: bool)
    requires
        NEAR_ENOUGH <= best <= ONE,
        next <= best,
        SIXTEENTH <= lead <= WIDEST_LEAD,
    ensures
        answer == leads_by_less_than(best, next, lead),
{
    let ahead: u64 = coarse(best);
    let wanted: u64 = coarse(lead);
    let ghost unit = pow2(1018) as int;
    proof {
        lemma2_to64();
        lemma_pow2_pos(1018);
    }
    if next < SIXTEENTH {
        proof {
            lemma_small_magnitude(next);
            assert(ahead - FRACTIONS >= wanted);
            assert(ahead * unit - FRACTIONS * unit >= wanted * unit) by (nonlinear_arith)
                requires
                    ahead - FRACTIONS >= wanted,
                    unit > 0,
            ;
        }
        return false;
    }
    let behind: u64 = coarse(next);
    proof {
        assert((ahead - behind < wanted) == (ahead * unit - behind * unit < wanted * unit))
            by (nonlinear_arith)
            requires
                unit > 0,
        ;
        lemma_magnitude_is_monotone(next, best);
        assert(behind <= ahead) by (nonlinear_arith)
            requires
                unit > 0,
                behind * unit <= ahead * unit,
        ;
    }
    ahead - behind < wanted
}

/// Larger bits are a larger proportion.
pub proof fn lemma_magnitude_is_monotone(one: u64, other: u64)
    requires
        one <= other,
    ensures
        magnitude(one) <= magnitude(other),
{
    let low = one / FRACTIONS;
    let high = other / FRACTIONS;
    let f = one % FRACTIONS;
    let g = other % FRACTIONS;
    if low == high {
        if low > 0 {
            let unit = pow2((low - 1) as nat);
            assert((FRACTIONS + f) * unit <= (FRACTIONS + g) * unit) by (nonlinear_arith)
                requires
                    f <= g,
            ;
        }
    } else {
        let top = pow2((high - 1) as nat);
        lemma_pow2_pos((high - 1) as nat);
        if low == 0 {
            assert((FRACTIONS + g) * top >= FRACTIONS) by (nonlinear_arith)
                requires
                    top >= 1,
                    g >= 0,
            ;
        } else {
            let unit = pow2((low - 1) as nat);
            lemma_pow2_pos((low - 1) as nat);
            lemma_pow2_unfold(low as nat);
            if low < high - 1 {
                lemma_pow2_strictly_increases(low as nat, (high - 1) as nat);
            }
            assert((FRACTIONS + f) * unit <= (FRACTIONS + g) * top) by (nonlinear_arith)
                requires
                    f < FRACTIONS,
                    g >= 0,
                    top >= 2 * unit,
                    unit > 0,
            ;
        }
    }
}

/// The double nearest to a fraction is off it by no more than half of its own
/// last step. Both are counted in the smallest steps a double can take, of which
/// one holds two to the power of 1074.
pub proof fn law_the_nearest_double_is_near(p: nat, q: nat)
    requires
        0 < p <= q <= 0x3_ffff_ffff_ffff_ffff,
    ensures
        ({
            let bits = nearest_double(p, q) as u64;
            let step = pow2((bits / FRACTIONS - 1) as nat);
            &&& 0 < bits / FRACTIONS
            &&& 2 * (p * pow2(1074) - q * magnitude(bits)) <= q * step
            &&& 2 * (q * magnitude(bits) - p * pow2(1074)) <= q * step
        }),
{
    law_the_nearest_double_is_a_proportion(p, q);
    let n = p * FRACTIONS as nat;
    assert(n > 0) by (nonlinear_arith)
        requires
            p > 0,
            n == p * 0x10_0000_0000_0000,
    ;
    assert(n <= q * FRACTIONS) by (nonlinear_arith)
        requires
            p <= q,
            n == p * 0x10_0000_0000_0000,
    ;
    lemma_scaled_reaches_the_mark(n, q);
    lemma_scaled_is_doubled(n, q);
    lemma2_to64();
    lemma2_to64_rest();
    lemma_pow2_adds(64, 54);
    lemma_few_doublings(n, q, 52);
    let k = doublings(n, q);
    let m = scaled(n, q);
    let quotient = nearest_quotient(m, q);
    let low = (1022 - k) as nat;
    vstd::arithmetic::div_mod::lemma_fundamental_div_mod(m as int, q as int);
    assert(m / q >= FRACTIONS) by (nonlinear_arith)
        requires
            q > 0,
            m >= q * 0x10_0000_0000_0000,
            m == q * (m / q) + m % q,
            0 <= m % q < q,
    ;
    assert(quotient <= 2 * FRACTIONS) by {
        if k == 0 {
            assert(m == q * FRACTIONS);
            vstd::arithmetic::div_mod::lemma_div_multiples_vanish(FRACTIONS as int, q as int);
            vstd::arithmetic::div_mod::lemma_mod_multiples_basic(FRACTIONS as int, q as int);
            assert(q * FRACTIONS == FRACTIONS * q) by (nonlinear_arith);
        } else {
            assert(2 * (q * FRACTIONS) == q * (2 * FRACTIONS)) by (nonlinear_arith);
            lemma_nearest_is_bounded(m, q, (2 * FRACTIONS) as nat);
        }
    }
    let bits = nearest_double(p, q) as u64;
    let whole: int = (1023 - k) * FRACTIONS + quotient - FRACTIONS;
    assert(nearest_double(p, q) == whole);
    assert(bits == whole);
    lemma_pow2_unfold((low + 1) as nat);
    let base = pow2(low);
    if quotient < 2 * FRACTIONS {
        let fraction: int = quotient - FRACTIONS;
        assert(bits / FRACTIONS == 1023 - k && bits % FRACTIONS == fraction) by (nonlinear_arith)
            requires
                bits == (1023 - k) * 0x10_0000_0000_0000 + fraction,
                FRACTIONS == 0x10_0000_0000_0000u64,
                0 <= fraction < 0x10_0000_0000_0000,
                0 <= k <= 1023,
        ;
        assert(magnitude(bits) == quotient * base);
    } else {
        assert(bits == (1024 - k) * FRACTIONS);
        assert(bits / FRACTIONS == 1024 - k && bits % FRACTIONS == 0) by (nonlinear_arith)
            requires
                bits == (1024 - k) * 0x10_0000_0000_0000,
                FRACTIONS == 0x10_0000_0000_0000u64,
                0 <= k <= 1023,
        ;
        assert(magnitude(bits) == FRACTIONS * pow2(low + 1));
        assert(FRACTIONS * (2 * base) == (2 * FRACTIONS) * base) by (nonlinear_arith);
    }
    assert(magnitude(bits) == quotient * base);
    // The fraction itself, in the same steps.
    lemma_pow2_adds(k, low);
    lemma_pow2_adds((k + low) as nat, 52);
    assert(pow2(52) == FRACTIONS);
    assert(m == n * pow2(k));
    let doubled = pow2(k);
    let all = pow2(1074);
    assert(all == doubled * base * FRACTIONS);
    assert(p * all == m * base) by (nonlinear_arith)
        requires
            all == doubled * base * 0x10_0000_0000_0000,
            m == n * doubled,
            n == p * 0x10_0000_0000_0000,
    ;
    // Rounding is off by half of one at most.
    let below = m / q;
    let rest = m % q;
    let far: int = m - q * quotient;
    assert(2 * far <= q && -q <= 2 * far) by {
        assert(m == q * below + rest);
        if quotient == below + 1 {
            assert(q * (below + 1) == q * below + q) by (nonlinear_arith);
        }
    }
    assert(p * all - q * (quotient * base) == far * base) by (nonlinear_arith)
        requires
            p * all == m * base,
            far == m - q * quotient,
    ;
    assert(2 * (far * base) <= q * base && -(q * base) <= 2 * (far * base)) by (nonlinear_arith)
        requires
            2 * far <= q,
            -q <= 2 * far,
            base >= 0,
    ;
    assert(q * base <= q * pow2((bits / FRACTIONS - 1) as nat)) by {
        if quotient == 2 * FRACTIONS {
            assert(q * base <= q * (2 * base)) by (nonlinear_arith)
                requires
                    base >= 0,
                    q >= 0,
            ;
        }
    }
}

/// Doubling a number so often is multiplying it by that power of two.
proof fn lemma_scaled_is_doubled(n: nat, q: nat)
    requires
        n > 0,
    ensures
        scaled(n, q) == n * pow2(doublings(n, q)),
    decreases
        if n >= q * FRACTIONS {
            0
        } else {
            q * FRACTIONS - n
        },
{
    lemma2_to64();
    if n < q * FRACTIONS {
        lemma_scaled_is_doubled(2 * n, q);
        let k = doublings(2 * n, q);
        lemma_pow2_unfold(k + 1);
        assert((2 * n) * pow2(k) == n * (2 * pow2(k))) by (nonlinear_arith);
    } else {
        assert(n * 1 == n);
    }
}

/// Between nought and one the bits of a double order as the numbers do.
pub proof fn law_bits_order_as_numbers(one: u64, other: u64)
    requires
        one <= ONE,
        other <= ONE,
    ensures
        one < other ==> magnitude(one) < magnitude(other),
        one == other <==> magnitude(one) == magnitude(other),
{
    lemma_magnitude_is_strict(one, other);
    lemma_magnitude_is_strict(other, one);
}

proof fn lemma_magnitude_is_strict(one: u64, other: u64)
    requires
        one <= ONE,
        other <= ONE,
    ensures
        one < other ==> magnitude(one) < magnitude(other),
{
    if one < other {
        let next = (one + 1) as u64;
        lemma_magnitude_is_monotone(next, other);
        let e = one / FRACTIONS;
        let f = one % FRACTIONS;
        assert(one == e * FRACTIONS + f) by (nonlinear_arith)
            requires
                e == one / 0x10_0000_0000_0000u64,
                f == one % 0x10_0000_0000_0000u64,
                FRACTIONS == 0x10_0000_0000_0000u64,
        ;
        if f + 1 < FRACTIONS {
            assert(next / FRACTIONS == e && next % FRACTIONS == f + 1) by (nonlinear_arith)
                requires
                    next == e * 0x10_0000_0000_0000 + f + 1,
                    0 <= f,
                    f + 1 < 0x10_0000_0000_0000,
                    FRACTIONS == 0x10_0000_0000_0000u64,
            ;
            if e > 0 {
                let step = pow2((e - 1) as nat);
                lemma_pow2_pos((e - 1) as nat);
                assert((FRACTIONS + f + 1) * step == (FRACTIONS + f) * step + step)
                    by (nonlinear_arith);
            }
        } else {
            assert(next / FRACTIONS == e + 1 && next % FRACTIONS == 0) by (nonlinear_arith)
                requires
                    next == e * 0x10_0000_0000_0000 + f + 1,
                    f + 1 == 0x10_0000_0000_0000,
                    FRACTIONS == 0x10_0000_0000_0000u64,
            ;
            let above = pow2(e as nat);
            lemma2_to64();
            if e == 0 {
                assert(FRACTIONS * pow2(0) == FRACTIONS);
            } else {
                let step = pow2((e - 1) as nat);
                lemma_pow2_unfold(e as nat);
                lemma_pow2_pos((e - 1) as nat);
                assert((FRACTIONS + f) * step + step == FRACTIONS * (2 * step)) by (nonlinear_arith)
                    requires
                        f + 1 == 0x10_0000_0000_0000,
                        FRACTIONS == 0x10_0000_0000_0000u64,
                ;
            }
        }
    }
}

/// A number is a proportion exactly where it is from nought to one. Nought has
/// two writings, and both are kept as one.
pub proof fn law_which_numbers_are_proportions(bits: u64)
    ensures
        is_proportion(bits) <==> bits <= 0x3ff0_0000_0000_0000 || bits == 0x8000_0000_0000_0000,
        bits == 0x8000_0000_0000_0000 ==> unsigned_bits(bits) == 0,
        bits != 0x8000_0000_0000_0000 ==> unsigned_bits(bits) == bits,
{
}

} // verus!
