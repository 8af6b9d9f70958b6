//! Round-to-nearest binary64 arithmetic on non-negative rationals, carried out exactly on
//! integers.
//!
//! A binary64 number in its normal range is `significand / 2^scale` with a significand of 53
//! bits, `2^52 <= significand < 2^53`. Converting a value to binary64 picks the nearest such
//! number, a tie going to the even significand; the results of division and multiplication
//! are the operands' exact result converted in the same way. The magnitudes handled here stay
//! far from the ends of the exponent range, so neither overflow nor subnormal numbers occur.
use vstd::arithmetic::div_mod::{lemma_fundamental_div_mod, lemma_fundamental_div_mod_converse};
use vstd::arithmetic::power2::{
    lemma2_to64, lemma2_to64_rest, lemma_pow2_adds, lemma_pow2_pos, lemma_pow2_strictly_increases,
    lemma_pow2_unfold, pow2,
};
use vstd::prelude::*;

verus! {

/// `quotient + remainder / divisor` rounded to the nearest integer, a tie going to the even
/// one
pub open spec fn round_half_even(quotient: nat, remainder: nat, divisor: nat) -> nat {
    if 2 * remainder < divisor {
        quotient
    } else if 2 * remainder > divisor {
        quotient + 1
    } else if quotient % 2 == 0 {
        quotient
    } else {
        quotient + 1
    }
}

/// Scaled by `2^scale`, `num / den` has a 53-bit integer part:
/// `2^52 <= num / den * 2^scale < 2^53`
pub open spec fn in_binade(num: nat, den: nat, scale: int) -> bool {
    if scale >= 0 {
        &&& pow2(52) * den <= num * pow2(scale as nat)
        &&& num * pow2(scale as nat) < pow2(53) * den
    } else {
        &&& pow2(52) * (den * pow2((-scale) as nat)) <= num
        &&& num < pow2(53) * (den * pow2((-scale) as nat))
    }
}

/// The binary64 number nearest to `num / den`, a tie going to the even significand, as its
/// significand and scale: its value is `significand / 2^scale`. Zero is `(0, 0)`.
pub open spec fn nearest_binary64(num: nat, den: nat) -> (nat, int) {
    if num == 0 {
        (0, 0)
    } else {
        let scale = choose|scale: int| in_binade(num, den, scale);
        if scale >= 0 {
            let scaled = num * pow2(scale as nat);
            (round_half_even(scaled / den, scaled % den, den), scale)
        } else {
            let unit = den * pow2((-scale) as nat);
            (round_half_even(num / unit, num % unit, unit), scale)
        }
    }
}

/// The numerator of the value of a binary64 number given as significand and scale
pub open spec fn value_numerator(number: (nat, int)) -> nat {
    if number.1 >= 0 {
        number.0
    } else {
        number.0 * pow2((-number.1) as nat)
    }
}

/// The denominator of the value of a binary64 number given as significand and scale
pub open spec fn value_denominator(number: (nat, int)) -> nat {
    if number.1 >= 0 {
        pow2(number.1 as nat)
    } else {
        1
    }
}

/// The binary64 number that an unsigned integer converts to: the integer itself below `2^53`,
/// where every integer is representable, and the nearest binary64 number above
pub open spec fn integer_to_binary64(x: nat) -> nat {
    if x < pow2(53) {
        x
    } else {
        value_numerator(nearest_binary64(x, 1))
    }
}

/// `num / den`, for a non-negative value, rounded to the nearest integer with halves
/// rounded up (away from zero)
pub open spec fn round_half_away(num: nat, den: nat) -> nat {
    ((2 * num + den) / (2 * den)) as nat
}

proof fn lemma_powers()
    ensures
        pow2(52) == 0x10_0000_0000_0000,
        pow2(53) == 0x20_0000_0000_0000,
        pow2(64) == 0x1_0000_0000_0000_0000,
        pow2(120) == 0x100_0000_0000_0000_0000_0000_0000_0000,
        pow2(127) == 0x8000_0000_0000_0000_0000_0000_0000_0000,
{
    lemma2_to64();
    lemma2_to64_rest();
    lemma_pow2_adds(56, 64);
    lemma_pow2_adds(63, 64);
}

/// `pow2(hi) >= 2 * pow2(lo)` for `lo < hi`
proof fn lemma_pow2_doubles(lo: nat, hi: nat)
    requires
        lo < hi,
    ensures
        pow2(hi) >= 2 * pow2(lo),
{
    lemma_pow2_unfold((lo + 1) as nat);
    if lo + 1 < hi {
        lemma_pow2_strictly_increases((lo + 1) as nat, hi);
    }
}

/// No value lies in two binades
proof fn lemma_binade_unique(num: nat, den: nat, first: int, second: int)
    requires
        den > 0,
        in_binade(num, den, first),
        in_binade(num, den, second),
    ensures
        first == second,
{
    if first != second {
        let lo: int = if first < second { first } else { second };
        let hi: int = if first < second { second } else { first };
        lemma_powers();
        if lo >= 0 {
            let p: int = pow2(lo as nat) as int;
            let q: int = pow2(hi as nat) as int;
            lemma_pow2_doubles(lo as nat, hi as nat);
            assert(num * q >= num * (2 * p)) by (nonlinear_arith)
                requires
                    q >= 2 * p,
                    num >= 0,
            ;
            assert(false) by (nonlinear_arith)
                requires
                    num * q >= num * (2 * p),
                    pow2(52) * den <= num * p,
                    num * q < pow2(53) * den,
                    pow2(53) == 2 * pow2(52),
            ;
        } else if hi >= 0 {
            let u: nat = (-lo) as nat;
            let q: int = pow2(hi as nat) as int;
            lemma_pow2_doubles(0, u);
            lemma_pow2_pos(hi as nat);
            lemma2_to64();
            assert(false) by (nonlinear_arith)
                requires
                    pow2(52) * (den * pow2(u)) <= num,
                    pow2(u) >= 2 * pow2(0),
                    pow2(0) == 1,
                    q >= 1,
                    num * q < pow2(53) * den,
                    pow2(53) == 2 * pow2(52),
                    den > 0,
                    num >= 0,
            ;
        } else {
            let big: nat = (-lo) as nat;
            let small: nat = (-hi) as nat;
            lemma_pow2_doubles(small, big);
            assert(false) by (nonlinear_arith)
                requires
                    pow2(52) * (den * pow2(big)) <= num,
                    num < pow2(53) * (den * pow2(small)),
                    pow2(big) >= 2 * pow2(small),
                    pow2(53) == 2 * pow2(52),
                    den > 0,
            ;
        }
    }
}

/// The scale that `nearest_binary64` picks is the one of the binade that holds the value
proof fn lemma_nearest_scale(num: nat, den: nat, scale: int)
    requires
        den > 0,
        num > 0,
        in_binade(num, den, scale),
    ensures
        nearest_binary64(num, den).1 == scale,
{
    let chosen = choose|s: int| in_binade(num, den, s);
    lemma_binade_unique(num, den, chosen, scale);
}

/// `2^e` for an exponent that fits into `u128`
pub(crate) fn pow2_of(e: u32) -> (power: u128)
    requires
        e < 127,
    ensures
        power == pow2(e as nat),
{
    let mut power: u128 = 1;
    let mut i: u32 = 0;
    proof {
        lemma2_to64();
    }
    while i < e
        invariant
            i <= e < 127,
            power == pow2(i as nat),
        decreases e - i,
    {
        proof {
            lemma_pow2_unfold((i + 1) as nat);
            lemma_powers();
            if i + 1 < 127 {
                lemma_pow2_strictly_increases((i + 1) as nat, 127);
            }
        }
        power = power * 2;
        i = i + 1;
    }
    power
}

/// `round_half_even(quotient, remainder, divisor)`
fn round_half_even_of(quotient: u128, remainder: u128, divisor: u128) -> (rounded: u128)
    requires
        remainder < divisor < 0x100_0000_0000_0000_0000_0000_0000_0000,
        quotient < 0x20_0000_0000_0000,
    ensures
        rounded == round_half_even(quotient as nat, remainder as nat, divisor as nat),
        rounded <= 0x20_0000_0000_0000,
{
    let twice: u128 = 2 * remainder;
    if twice < divisor {
        quotient
    } else if twice > divisor {
        quotient + 1
    } else if quotient % 2 == 0 {
        quotient
    } else {
        quotient + 1
    }
}

/// The binary64 number nearest to `num / den`, as significand and scale
pub fn nearest(num: u128, den: u128) -> (rounded: (u128, i32))
    requires
        0 < den < pow2(120),
        num < pow2(120),
    ensures
        rounded.0 == nearest_binary64(num as nat, den as nat).0,
        rounded.1 == nearest_binary64(num as nat, den as nat).1,
        rounded.0 <= pow2(53),
        num > 0 ==> in_binade(num as nat, den as nat, rounded.1 as int),
        num > 0 ==> rounded.0 >= pow2(52),
        -120 <= rounded.1 <= 200,
{
    proof {
        lemma_powers();
    }
    if num == 0 {
        return (0, 0);
    }
    let two_52: u128 = 0x10_0000_0000_0000;
    let two_53: u128 = 0x20_0000_0000_0000;
    proof {
        lemma_fundamental_div_mod(num as int, two_53 as int);
    }
    if num / two_53 >= den {
        // The value is at least 2^53: the significand is the quotient by `den * 2^shift`.
        let mut unit: u128 = den;
        let mut shift: u32 = 0;
        proof {
            lemma2_to64();
            assert(num >= den * two_53) by (nonlinear_arith)
                requires
                    num / two_53 >= den,
                    num == two_53 * (num / two_53) + num % two_53,
                    num % two_53 >= 0,
                    two_53 > 0,
            ;
        }
        while num / two_53 >= unit
            invariant
                0 < den < pow2(120),
                0 < num < pow2(120),
                two_52 == pow2(52),
                two_53 == pow2(53),
                two_52 == 0x10_0000_0000_0000,
                two_53 == 0x20_0000_0000_0000,
                pow2(120) == 0x100_0000_0000_0000_0000_0000_0000_0000,
                unit == den * pow2(shift as nat),
                num >= unit * two_52,
                unit <= num,
                shift < 120,
                pow2(shift as nat) <= unit,
                unit > 0,
            decreases num - unit,
        {
            proof {
                lemma_fundamental_div_mod(num as int, two_53 as int);
                assert(num >= unit * two_53) by (nonlinear_arith)
                    requires
                        num / two_53 >= unit,
                        num == two_53 * (num / two_53) + num % two_53,
                        num % two_53 >= 0,
                        two_53 > 0,
                ;
                lemma_pow2_unfold((shift + 1) as nat);
                assert(unit * 2 * two_52 == unit * two_53) by (nonlinear_arith)
                    requires
                        two_53 == 2 * two_52,
                ;
                assert(den * pow2((shift + 1) as nat) == unit * 2) by (nonlinear_arith)
                    requires
                        unit == den * pow2(shift as nat),
                        pow2((shift + 1) as nat) == 2 * pow2(shift as nat),
                ;
                assert(unit * 2 <= num) by (nonlinear_arith)
                    requires
                        num >= unit * two_53,
                        two_53 >= 2,
                        unit >= 0,
                ;
                if shift + 1 >= 120 {
                    if shift + 1 > 120 {
                        lemma_pow2_strictly_increases(120, (shift + 1) as nat);
                    }
                    assert(false);
                }
            }
            unit = unit * 2;
            shift = shift + 1;
        }
        let quotient: u128 = num / unit;
        let remainder: u128 = num % unit;
        proof {
            lemma_fundamental_div_mod(num as int, two_53 as int);
            assert(num < unit * two_53) by (nonlinear_arith)
                requires
                    num / two_53 < unit,
                    num == two_53 * (num / two_53) + num % two_53,
                    num % two_53 < two_53,
                    two_53 > 0,
            ;
            assert(unit > 0) by (nonlinear_arith)
                requires
                    unit == den * pow2(shift as nat),
                    den > 0,
                    pow2(shift as nat) > 0,
            ;
            lemma_fundamental_div_mod(num as int, unit as int);
            assert(quotient < two_53 && quotient >= two_52) by (nonlinear_arith)
                requires
                    num == unit * quotient + remainder,
                    0 <= remainder < unit,
                    num < unit * two_53,
                    num >= unit * two_52,
            ;
            assert(shift > 0) by {
                if shift == 0 {
                    assert(num >= den * two_53) by (nonlinear_arith)
                        requires
                            num >= den * pow2(53),
                            two_53 == pow2(53),
                    ;
                }
            }
            let scale: int = -(shift as int);
            assert(in_binade(num as nat, den as nat, scale)) by {
                assert((-scale) as nat == shift as nat);
                assert(pow2(52) * (den * pow2(shift as nat)) == unit * two_52) by (nonlinear_arith)
                    requires
                        unit == den * pow2(shift as nat),
                        two_52 == pow2(52),
                ;
                assert(pow2(53) * (den * pow2(shift as nat)) == unit * two_53) by (nonlinear_arith)
                    requires
                        unit == den * pow2(shift as nat),
                        two_53 == pow2(53),
                ;
            }
            lemma_nearest_scale(num as nat, den as nat, scale);
        }
        let significand: u128 = round_half_even_of(quotient, remainder, unit);
        (significand, -(shift as i32))
    } else {
        // The value is below 2^53: long division yields one more bit of the significand per step.
        let mut quotient: u128 = num / den;
        let mut remainder: u128 = num % den;
        let mut scale: u32 = 0;
        proof {
            lemma_fundamental_div_mod(num as int, den as int);
            lemma_fundamental_div_mod(num as int, two_53 as int);
            assert(num < den * two_53) by (nonlinear_arith)
                requires
                    num / two_53 < den,
                    num == two_53 * (num / two_53) + num % two_53,
                    num % two_53 < two_53,
                    two_53 > 0,
            ;
            assert(quotient < two_53) by (nonlinear_arith)
                requires
                    num == den * quotient + remainder,
                    0 <= remainder < den,
                    num < den * two_53,
            ;
            assert(num * pow2(0) == quotient * den + remainder) by {
                lemma2_to64();
            }
        }
        while quotient < two_52
            invariant
                0 < den < pow2(120),
                0 < num < pow2(120),
                two_52 == pow2(52),
                two_53 == pow2(53),
                two_52 == 0x10_0000_0000_0000,
                two_53 == 0x20_0000_0000_0000,
                pow2(120) == 0x100_0000_0000_0000_0000_0000_0000_0000,
                num * pow2(scale as nat) == quotient * den + remainder,
                remainder < den,
                quotient < two_53,
                scale <= 172,
            decreases pow2(53) * den - num * pow2(scale as nat),
        {
            proof {
                assert(num * pow2(scale as nat) < pow2(52) * pow2(120)) by (nonlinear_arith)
                    requires
                        num * pow2(scale as nat) == quotient * den + remainder,
                        remainder < den,
                        quotient < two_52,
                        two_52 == pow2(52),
                        den < pow2(120),
                ;
                lemma_pow2_adds(52, 120);
                assert(num * pow2(scale as nat) < pow2(52) * den) by (nonlinear_arith)
                    requires
                        num * pow2(scale as nat) == quotient * den + remainder,
                        remainder < den,
                        quotient < two_52,
                        two_52 == pow2(52),
                ;
                if scale >= 172 {
                    if scale > 172 {
                        lemma_pow2_strictly_increases(172, scale as nat);
                    }
                    assert(num * pow2(scale as nat) >= pow2(172)) by (nonlinear_arith)
                        requires
                            num >= 1,
                            pow2(scale as nat) >= pow2(172),
                    ;
                    assert(false);
                }
                lemma_pow2_unfold((scale + 1) as nat);
            }
            let ghost measure: int = pow2(53) * den - num * pow2(scale as nat);
            let twice: u128 = 2 * remainder;
            let ghost before_quotient = quotient;
            let ghost before_remainder = remainder;
            if twice >= den {
                quotient = 2 * quotient + 1;
                remainder = twice - den;
            } else {
                quotient = 2 * quotient;
                remainder = twice;
            }
            proof {
                assert(num * pow2((scale + 1) as nat) == 2 * (num * pow2(scale as nat)))
                    by (nonlinear_arith)
                    requires
                        pow2((scale + 1) as nat) == 2 * pow2(scale as nat),
                ;
                assert(num * pow2((scale + 1) as nat) == quotient * den + remainder)
                    by (nonlinear_arith)
                    requires
                        num * pow2((scale + 1) as nat) == 2 * (before_quotient * den
                            + before_remainder),
                        twice == 2 * before_remainder,
                        twice >= den ==> quotient == 2 * before_quotient + 1 && remainder == twice
                            - den,
                        twice < den ==> quotient == 2 * before_quotient && remainder == twice,
                ;
                lemma_pow2_pos(scale as nat);
                assert(num * pow2((scale + 1) as nat) > num * pow2(scale as nat))
                    by (nonlinear_arith)
                    requires
                        num * pow2((scale + 1) as nat) == 2 * (num * pow2(scale as nat)),
                        num > 0,
                        pow2(scale as nat) > 0,
                ;
            }
            scale = scale + 1;
            assert(pow2(53) * den - num * pow2(scale as nat) < measure);
            assert(num * pow2(scale as nat) < pow2(53) * den) by (nonlinear_arith)
                requires
                    num * pow2(scale as nat) == quotient * den + remainder,
                    remainder < den,
                    quotient < two_53,
                    two_53 == pow2(53),
            ;
        }
        proof {
            assert(in_binade(num as nat, den as nat, scale as int)) by (nonlinear_arith)
                requires
                    num * pow2(scale as nat) == quotient * den + remainder,
                    remainder < den,
                    two_52 <= quotient < two_53,
                    two_52 == pow2(52),
                    two_53 == pow2(53),
                    scale >= 0,
            ;
            lemma_nearest_scale(num as nat, den as nat, scale as int);
            lemma_fundamental_div_mod_converse(
                (num * pow2(scale as nat)) as int,
                den as int,
                quotient as int,
                remainder as int,
            );
        }
        let significand: u128 = round_half_even_of(quotient, remainder, den);
        (significand, scale as i32)
    }
}

/// The binary64 number that `x` converts to; its value is an integer no larger than `2^64`.
pub fn integer_to_binary64_of(x: u64) -> (converted: u128)
    ensures
        converted == integer_to_binary64(x as nat),
        converted <= pow2(64),
        x < pow2(53) ==> converted == x,
        x >= pow2(53) ==> converted >= pow2(52),
{
    proof {
        lemma_powers();
    }
    if x < 0x20_0000_0000_0000 {
        return x as u128;
    }
    let (significand, scale) = nearest(x as u128, 1);
    proof {
        if scale >= 0 {
            assert(false) by (nonlinear_arith)
                requires
                    x * pow2(scale as nat) < pow2(53) * 1,
                    pow2(scale as nat) > 0,
                    x >= pow2(53),
            ;
        }
        let shift: nat = (-scale) as nat;
        assert(pow2(52) * pow2(shift) < pow2(64)) by (nonlinear_arith)
            requires
                pow2(52) * (1 * pow2(shift)) <= x,
                x < pow2(64),
        ;
        lemma_pow2_adds(52, shift);
        if shift >= 12 {
            if shift > 12 {
                lemma_pow2_strictly_increases(64, 52 + shift);
            }
            assert(false);
        }
    }
    let power: u128 = pow2_of((-scale) as u32);
    proof {
        let shift: nat = (-scale) as nat;
        lemma2_to64();
        if shift < 11 {
            lemma_pow2_strictly_increases(shift, 11);
        }
        lemma_pow2_pos(shift);
        assert(significand * power <= pow2(64) && significand * power >= pow2(52))
            by (nonlinear_arith)
            requires
                significand <= pow2(53),
                significand >= pow2(52),
                1 <= power <= pow2(11),
                pow2(11) == 0x800,
                pow2(53) == 0x20_0000_0000_0000,
                pow2(64) == 0x1_0000_0000_0000_0000,
        ;
    }
    significand * power
}

/// `a / b <= c / d` (floored) whenever `a / b <= c / d` as rationals
proof fn lemma_floor_monotone(a: nat, b: nat, c: nat, d: nat)
    requires
        b > 0,
        d > 0,
        a * d <= c * b,
    ensures
        a / b <= c / d,
{
    let q: int = a as int / b as int;
    lemma_fundamental_div_mod(a as int, b as int);
    lemma_fundamental_div_mod(c as int, d as int);
    assert(q * d <= c) by (nonlinear_arith)
        requires
            a == b * q + a % b,
            a % b >= 0,
            a * d <= c * b,
            b > 0,
            d > 0,
    ;
    assert(q <= c / d) by (nonlinear_arith)
        requires
            q * d <= c,
            c == d * (c / d) + c % d,
            c % d < d,
            d > 0,
    ;
}

/// Rounding half away from zero never decreases as the value grows
pub proof fn lemma_round_half_away_monotone(n1: nat, d1: nat, n2: nat, d2: nat)
    requires
        d1 > 0,
        d2 > 0,
        n1 * d2 <= n2 * d1,
    ensures
        round_half_away(n1, d1) <= round_half_away(n2, d2),
{
    assert((2 * n1 + d1) * (2 * d2) <= (2 * n2 + d2) * (2 * d1)) by (nonlinear_arith)
        requires
            n1 * d2 <= n2 * d1,
    ;
    lemma_floor_monotone((2 * n1 + d1) as nat, (2 * d1) as nat, (2 * n2 + d2) as nat, (2 * d2) as nat);
}

/// Rounding half to even never decreases as the value grows
proof fn lemma_round_half_even_monotone(n1: nat, d1: nat, n2: nat, d2: nat)
    requires
        d1 > 0,
        d2 > 0,
        n1 * d2 <= n2 * d1,
    ensures
        round_half_even(n1 / d1, n1 % d1, d1) <= round_half_even(n2 / d2, n2 % d2, d2),
{
    lemma_floor_monotone(n1, d1, n2, d2);
    let q1: int = n1 as int / d1 as int;
    let q2: int = n2 as int / d2 as int;
    let r1: int = n1 as int % d1 as int;
    let r2: int = n2 as int % d2 as int;
    lemma_fundamental_div_mod(n1 as int, d1 as int);
    lemma_fundamental_div_mod(n2 as int, d2 as int);
    if q1 == q2 {
        assert(r1 * d2 <= r2 * d1) by (nonlinear_arith)
            requires
                n1 == d1 * q1 + r1,
                n2 == d2 * q2 + r2,
                q1 == q2,
                n1 * d2 <= n2 * d1,
        ;
        if 2 * r1 > d1 {
            assert(2 * r2 > d2) by (nonlinear_arith)
                requires
                    r1 * d2 <= r2 * d1,
                    2 * r1 > d1,
                    d1 > 0,
                    d2 > 0,
            ;
        } else if 2 * r1 == d1 {
            assert(2 * r2 >= d2) by (nonlinear_arith)
                requires
                    r1 * d2 <= r2 * d1,
                    2 * r1 == d1,
                    d1 > 0,
                    d2 > 0,
            ;
        }
    }
}

proof fn lemma_binade_from_below(num: nat, den: nat, scale: nat)
    requires
        num > 0,
        den > 0,
        num * pow2(scale) < pow2(53) * den,
    ensures
        exists|s: int| in_binade(num, den, s),
    decreases pow2(53) * den - num * pow2(scale),
{
    if pow2(52) * den <= num * pow2(scale) {
        assert(in_binade(num, den, scale as int));
    } else {
        lemma_pow2_unfold(scale + 1);
        lemma_pow2_pos(scale);
        lemma_powers();
        assert(num * pow2(scale + 1) == 2 * (num * pow2(scale))) by (nonlinear_arith)
            requires
                pow2(scale + 1) == 2 * pow2(scale),
        ;
        assert(num * pow2(scale) > 0) by (nonlinear_arith)
            requires
                num > 0,
                pow2(scale) > 0,
        ;
        lemma_binade_from_below(num, den, scale + 1);
    }
}

proof fn lemma_binade_from_above(num: nat, den: nat, shift: nat)
    requires
        num > 0,
        den > 0,
        pow2(52) * (den * pow2(shift)) <= num,
    ensures
        exists|s: int| in_binade(num, den, s),
    decreases num - den * pow2(shift),
{
    lemma_powers();
    lemma_pow2_pos(shift);
    if num < pow2(53) * (den * pow2(shift)) {
        if shift == 0 {
            assert(in_binade(num, den, 0)) by {
                lemma2_to64();
            }
        } else {
            assert(in_binade(num, den, -(shift as int)));
        }
    } else {
        lemma_pow2_unfold(shift + 1);
        assert(pow2(52) * (den * pow2(shift + 1)) <= num) by (nonlinear_arith)
            requires
                pow2(shift + 1) == 2 * pow2(shift),
                num >= pow2(53) * (den * pow2(shift)),
                pow2(53) == 2 * pow2(52),
        ;
        assert(den * pow2(shift) < den * pow2(shift + 1) <= num) by (nonlinear_arith)
            requires
                pow2(shift + 1) == 2 * pow2(shift),
                pow2(shift) > 0,
                den > 0,
                pow2(52) * (den * pow2(shift + 1)) <= num,
                pow2(52) >= 1,
        ;
        lemma_binade_from_above(num, den, shift + 1);
    }
}

/// Every positive value lies in some binade
proof fn lemma_binade_exists(num: nat, den: nat)
    requires
        num > 0,
        den > 0,
    ensures
        exists|s: int| in_binade(num, den, s),
{
    lemma_powers();
    lemma2_to64();
    if num < pow2(53) * den {
        lemma_binade_from_below(num, den, 0);
    } else {
        lemma_binade_from_above(num, den, 0);
    }
}

/// The nearest binary64 number to a positive value has a 53-bit significand (or `2^53`)
/// and the scale of the value's binade
proof fn lemma_nearest_facts(num: nat, den: nat)
    requires
        num > 0,
        den > 0,
    ensures
        in_binade(num, den, nearest_binary64(num, den).1),
        pow2(52) <= nearest_binary64(num, den).0 <= pow2(53),
{
    lemma_binade_exists(num, den);
    let scale = choose|s: int| in_binade(num, den, s);
    lemma_powers();
    let (scaled, divisor) = if scale >= 0 {
        (num * pow2(scale as nat), den)
    } else {
        (num, den * pow2((-scale) as nat))
    };
    if scale < 0 {
        lemma_pow2_pos((-scale) as nat);
        assert(divisor > 0) by (nonlinear_arith)
            requires
                divisor == den * pow2((-scale) as nat),
                den > 0,
                pow2((-scale) as nat) > 0,
        ;
    }
    assert(pow2(52) * divisor <= scaled < pow2(53) * divisor);
    lemma_floor_monotone(pow2(52), 1, scaled, divisor);
    lemma_fundamental_div_mod(scaled as int, divisor as int);
    assert(scaled / divisor < pow2(53)) by (nonlinear_arith)
        requires
            scaled == divisor * (scaled / divisor) + scaled % divisor,
            scaled % divisor >= 0,
            scaled < pow2(53) * divisor,
            divisor > 0,
    ;
}

/// The value `value_numerator / value_denominator` of a binary64 number is
/// `significand / 2^scale`, written over the common power `2^lift`
proof fn lemma_value_lifted(number: (nat, int), lift: nat)
    requires
        number.1 >= -(lift as int),
    ensures
        value_numerator(number) * pow2((number.1 + lift) as nat) == value_denominator(number)
            * number.0 * pow2(lift),
{
    if number.1 >= 0 {
        lemma_pow2_adds(number.1 as nat, lift);
        assert(value_numerator(number) * pow2((number.1 + lift) as nat) == value_denominator(
            number,
        ) * number.0 * pow2(lift)) by (nonlinear_arith)
            requires
                pow2((number.1 + lift) as nat) == pow2(number.1 as nat) * pow2(lift),
                value_numerator(number) == number.0,
                value_denominator(number) == pow2(number.1 as nat),
        ;
    } else {
        let shift: nat = (-number.1) as nat;
        let rest: nat = (number.1 + lift) as nat;
        lemma_pow2_adds(shift, rest);
        assert(shift + rest == lift);
        assert(pow2(lift) == pow2(shift) * pow2(rest));
        assert(value_numerator(number) * pow2(rest) == value_denominator(number) * number.0
            * pow2(lift)) by (nonlinear_arith)
            requires
                pow2(lift) == pow2(shift) * pow2(rest),
                value_numerator(number) == number.0 * pow2(shift),
                value_denominator(number) == 1,
        ;
    }
}

/// A binade, written over the common power `2^lift`
proof fn lemma_binade_lifted(num: nat, den: nat, scale: int, lift: nat)
    requires
        den > 0,
        scale >= -(lift as int),
        in_binade(num, den, scale),
    ensures
        pow2(52) * den * pow2(lift) <= num * pow2((scale + lift) as nat),
        num * pow2((scale + lift) as nat) < pow2(53) * den * pow2(lift),
{
    if scale >= 0 {
        lemma_pow2_adds(scale as nat, lift);
        lemma_pow2_pos(lift);
        assert(pow2(52) * den * pow2(lift) <= num * pow2((scale + lift) as nat) < pow2(53) * den
            * pow2(lift)) by (nonlinear_arith)
            requires
                pow2((scale + lift) as nat) == pow2(scale as nat) * pow2(lift),
                pow2(52) * den <= num * pow2(scale as nat),
                num * pow2(scale as nat) < pow2(53) * den,
                pow2(lift) > 0,
        ;
    } else {
        let shift: nat = (-scale) as nat;
        let rest: nat = (scale + lift) as nat;
        lemma_pow2_adds(shift, rest);
        lemma_pow2_pos(rest);
        assert(pow2(52) * den * pow2(lift) <= num * pow2(rest) < pow2(53) * den * pow2(lift))
            by (nonlinear_arith)
            requires
                pow2(shift + rest) == pow2(shift) * pow2(rest),
                shift + rest == lift,
                pow2(52) * (den * pow2(shift)) <= num,
                num < pow2(53) * (den * pow2(shift)),
                pow2(rest) > 0,
        ;
    }
}

/// Rounding to the nearest binary64 number never decreases as the value grows:
/// `num1 / den1 <= num2 / den2` gives the same order between their nearest numbers
pub proof fn lemma_nearest_monotone(num1: nat, den1: nat, num2: nat, den2: nat)
    requires
        den1 > 0,
        den2 > 0,
        num1 * den2 <= num2 * den1,
    ensures
        value_numerator(nearest_binary64(num1, den1)) * value_denominator(
            nearest_binary64(num2, den2),
        ) <= value_numerator(nearest_binary64(num2, den2)) * value_denominator(
            nearest_binary64(num1, den1),
        ),
{
    let first = nearest_binary64(num1, den1);
    let second = nearest_binary64(num2, den2);
    lemma_powers();
    if num1 == 0 {
        lemma2_to64();
        assert(value_numerator(first) == 0);
        assert(value_numerator(first) * value_denominator(second) == 0);
        return;
    }
    assert(num2 > 0) by (nonlinear_arith)
        requires
            num1 * den2 <= num2 * den1,
            num1 > 0,
            den2 > 0,
            den1 > 0,
    ;
    lemma_nearest_facts(num1, den1);
    lemma_nearest_facts(num2, den2);
    let s1: int = first.1;
    let s2: int = second.1;
    let lift: nat = ((if s1 < 0 { -s1 } else { 0 }) + (if s2 < 0 { -s2 } else { 0 })) as nat;
    let l1: nat = pow2((s1 + lift) as nat);
    let l2: nat = pow2((s2 + lift) as nat);
    let k: nat = pow2(lift);
    lemma_pow2_pos((s1 + lift) as nat);
    lemma_pow2_pos((s2 + lift) as nat);
    lemma_pow2_pos(lift);
    lemma_binade_lifted(num1, den1, s1, lift);
    lemma_binade_lifted(num2, den2, s2, lift);
    let g1: nat = first.0;
    let g2: nat = second.0;
    if s1 < s2 {
        lemma_pow2_doubles((s1 + lift) as nat, (s2 + lift) as nat);
        assert(false) by (nonlinear_arith)
            requires
                l2 >= 2 * l1,
                pow2(52) * den1 * k <= num1 * l1,
                num2 * l2 < pow2(53) * den2 * k,
                num1 * den2 <= num2 * den1,
                pow2(53) == 2 * pow2(52),
                den1 > 0,
                den2 > 0,
                num1 > 0,
        ;
    }
    assert(g1 * l2 <= g2 * l1) by {
        if s1 > s2 {
            lemma_pow2_doubles((s2 + lift) as nat, (s1 + lift) as nat);
            assert(g1 * l2 <= g2 * l1) by (nonlinear_arith)
                requires
                    l1 >= 2 * l2,
                    g1 <= pow2(53),
                    g2 >= pow2(52),
                    pow2(53) == 2 * pow2(52),
                    l2 > 0,
            ;
        } else {
            assert(s1 == s2);
            if s1 >= 0 {
                let p: nat = pow2(s1 as nat);
                assert((num1 * p) * den2 <= (num2 * p) * den1) by (nonlinear_arith)
                    requires
                        num1 * den2 <= num2 * den1,
                ;
                lemma_round_half_even_monotone(num1 * p, den1, num2 * p, den2);
            } else {
                let p: nat = pow2((-s1) as nat);
                lemma_pow2_pos((-s1) as nat);
                assert(num1 * (den2 * p) <= num2 * (den1 * p)) by (nonlinear_arith)
                    requires
                        num1 * den2 <= num2 * den1,
                ;
                assert(den1 * p > 0 && den2 * p > 0) by (nonlinear_arith)
                    requires
                        den1 > 0,
                        den2 > 0,
                        p > 0,
                ;
                lemma_round_half_even_monotone(num1, den1 * p, num2, den2 * p);
            }
            assert(g1 <= g2);
            assert(g1 * l2 <= g2 * l1) by (nonlinear_arith)
                requires
                    g1 <= g2,
                    l1 == l2,
            ;
        }
    }
    lemma_value_lifted(first, lift);
    lemma_value_lifted(second, lift);
    let n1: nat = value_numerator(first);
    let e1: nat = value_denominator(first);
    let n2: nat = value_numerator(second);
    let e2: nat = value_denominator(second);
    assert(n1 * e2 * (l1 * l2) <= n2 * e1 * (l1 * l2)) by (nonlinear_arith)
        requires
            n1 * l1 == e1 * g1 * k,
            n2 * l2 == e2 * g2 * k,
            g1 * l2 <= g2 * l1,
    ;
    assert(n1 * e2 <= n2 * e1) by (nonlinear_arith)
        requires
            n1 * e2 * (l1 * l2) <= n2 * e1 * (l1 * l2),
            l1 > 0,
            l2 > 0,
    ;
}

/// The denominator of a binary64 number's value is positive
pub proof fn lemma_value_denominator_positive(number: (nat, int))
    ensures
        value_denominator(number) > 0,
{
    if number.1 >= 0 {
        lemma_pow2_pos(number.1 as nat);
    }
}

/// Converting to binary64 never decreases as the integer grows
pub proof fn lemma_integer_to_binary64_monotone(x: nat, y: nat)
    requires
        x <= y,
    ensures
        integer_to_binary64(x) <= integer_to_binary64(y),
{
    lemma_powers();
    if y >= pow2(53) {
        lemma_nearest_facts(y, 1);
        let converted = nearest_binary64(y, 1);
        if converted.1 >= 0 {
            lemma_pow2_pos(converted.1 as nat);
            assert(false) by (nonlinear_arith)
                requires
                    y * pow2(converted.1 as nat) < pow2(53) * 1,
                    pow2(converted.1 as nat) >= 1,
                    y >= pow2(53),
            ;
        }
        let shift: nat = (-converted.1) as nat;
        lemma_pow2_strictly_increases(0, shift);
        lemma2_to64();
        assert(value_numerator(converted) >= pow2(53)) by (nonlinear_arith)
            requires
                value_numerator(converted) == converted.0 * pow2(shift),
                converted.0 >= pow2(52),
                pow2(shift) >= 2,
                pow2(53) == 2 * pow2(52),
        ;
        if x >= pow2(53) {
            lemma_nearest_monotone(x, 1, y, 1);
            let before = nearest_binary64(x, 1);
            lemma_nearest_facts(x, 1);
            if before.1 >= 0 {
                lemma_pow2_pos(before.1 as nat);
                assert(false) by (nonlinear_arith)
                    requires
                        x * pow2(before.1 as nat) < pow2(53) * 1,
                        pow2(before.1 as nat) >= 1,
                        x >= pow2(53),
                ;
            }
            assert(value_denominator(before) == 1);
            assert(value_denominator(converted) == 1);
            assert(value_numerator(before) <= value_numerator(converted));
            assert(integer_to_binary64(x) == value_numerator(before));
        } else {
            assert(integer_to_binary64(x) == x);
        }
        assert(integer_to_binary64(y) == value_numerator(converted));
    }
}

/// Rounding to the nearest binary64 number is off by at most `2^-53` of the value:
/// `|value_numerator / value_denominator - num / den| <= num / den / 2^53`
pub proof fn lemma_nearest_error(num: nat, den: nat)
    requires
        num > 0,
        den > 0,
    ensures
        pow2(53) * (value_numerator(nearest_binary64(num, den)) * den - num * value_denominator(
            nearest_binary64(num, den),
        )) <= num * value_denominator(nearest_binary64(num, den)),
        pow2(53) * (num * value_denominator(nearest_binary64(num, den)) - value_numerator(
            nearest_binary64(num, den),
        ) * den) <= num * value_denominator(nearest_binary64(num, den)),
{
    lemma_nearest_facts(num, den);
    lemma_powers();
    let rounded = nearest_binary64(num, den);
    let scale = rounded.1;
    let vn: nat = value_numerator(rounded);
    let vd: nat = value_denominator(rounded);
    let (scaled, divisor) = if scale >= 0 {
        (num * pow2(scale as nat), den)
    } else {
        (num, den * pow2((-scale) as nat))
    };
    if scale < 0 {
        lemma_pow2_pos((-scale) as nat);
        assert(divisor > 0) by (nonlinear_arith)
            requires
                divisor == den * pow2((-scale) as nat),
                den > 0,
                pow2((-scale) as nat) > 0,
        ;
    }
    let sig: nat = rounded.0;
    let q: int = scaled as int / divisor as int;
    let r: int = scaled as int % divisor as int;
    lemma_fundamental_div_mod(scaled as int, divisor as int);
    assert(sig == q || sig == q + 1);
    assert(2 * (sig * divisor - scaled) <= divisor && 2 * (scaled - sig * divisor) <= divisor)
        by (nonlinear_arith)
        requires
            scaled == divisor * q + r,
            0 <= r < divisor,
            sig == q ==> 2 * r <= divisor,
            sig == q + 1 ==> 2 * r >= divisor,
            sig == q || sig == q + 1,
    ;
    assert(sig * divisor - scaled == vn * den - num * vd && scaled == num * vd) by {
        if scale >= 0 {
        } else {
            assert(sig * divisor == vn * den) by (nonlinear_arith)
                requires
                    divisor == den * pow2((-scale) as nat),
                    vn == sig * pow2((-scale) as nat),
            ;
        }
    }
    assert(pow2(53) * (vn * den - num * vd) <= num * vd && pow2(53) * (num * vd - vn * den)
        <= num * vd) by (nonlinear_arith)
        requires
            2 * (vn * den - num * vd) <= divisor,
            2 * (num * vd - vn * den) <= divisor,
            pow2(52) * divisor <= num * vd,
            pow2(53) == 2 * pow2(52),
    ;
}

/// The nearest binary64 number to a positive value is positive
pub proof fn lemma_nearest_numerator_positive(num: nat, den: nat)
    requires
        num > 0,
        den > 0,
    ensures
        value_numerator(nearest_binary64(num, den)) > 0,
{
    lemma_nearest_facts(num, den);
    lemma_powers();
    let rounded = nearest_binary64(num, den);
    if rounded.1 < 0 {
        lemma_pow2_pos((-rounded.1) as nat);
        assert(rounded.0 * pow2((-rounded.1) as nat) > 0) by (nonlinear_arith)
            requires
                rounded.0 >= pow2(52),
                pow2(52) > 0,
                pow2((-rounded.1) as nat) > 0,
        ;
    }
}

/// Converting an integer to binary64 is off by at most `2^-53` of it
pub proof fn lemma_integer_to_binary64_error(x: nat)
    ensures
        pow2(53) * (integer_to_binary64(x) - x) <= x,
        pow2(53) * (x - integer_to_binary64(x)) <= x,
{
    lemma_powers();
    if x >= pow2(53) {
        lemma_nearest_facts(x, 1);
        let converted = nearest_binary64(x, 1);
        if converted.1 >= 0 {
            lemma_pow2_pos(converted.1 as nat);
            assert(false) by (nonlinear_arith)
                requires
                    x * pow2(converted.1 as nat) < pow2(53) * 1,
                    pow2(converted.1 as nat) >= 1,
                    x >= pow2(53),
            ;
        }
        lemma_nearest_error(x, 1);
        assert(value_denominator(converted) == 1);
        assert(integer_to_binary64(x) == value_numerator(converted));
    }
}

} // verus!
