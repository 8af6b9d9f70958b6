//! Pairing up the elements of two lists of possibly different lengths.
use crate::binary64::{
    integer_to_binary64, integer_to_binary64_of, lemma_integer_to_binary64_monotone,
    lemma_integer_to_binary64_error, lemma_nearest_error, lemma_nearest_monotone,
    lemma_round_half_away_monotone,
    lemma_value_denominator_positive,
    nearest, nearest_binary64, round_half_away, value_denominator, value_numerator,
};
use vstd::arithmetic::div_mod::{lemma_fundamental_div_mod, lemma_fundamental_div_mod_converse};
use vstd::arithmetic::power2::{
    lemma2_to64, lemma2_to64_rest, lemma_pow2_adds, lemma_pow2_pos, lemma_pow2_strictly_increases,
    lemma_pow2_unfold, pow2,
};
use vstd::prelude::*;

verus! {

/// The index into the shorter list (of `short_len` elements) whose element is paired with
/// the element at `index` of the longer list (of `long_len` elements): the shorter list is
/// stretched evenly over the longer one. The index is `(short_len - 1) / (long_len - 1) * index`
/// computed in binary64 arithmetic (both lengths and `index` converted to binary64, the
/// quotient and the product each rounded to the nearest binary64 number) and then rounded to
/// the nearest integer, halves away from zero.
pub open spec fn spread_index(index: nat, short_len: nat, long_len: nat) -> nat {
    if long_len <= 1 || short_len == 0 {
        0
    } else {
        let last_short = integer_to_binary64((short_len - 1) as nat);
        let last_long = integer_to_binary64((long_len - 1) as nat);
        let ratio = nearest_binary64(last_short, last_long);
        let position = integer_to_binary64(index);
        let product = nearest_binary64(
            value_numerator(ratio) * position,
            value_denominator(ratio),
        );
        round_half_away(value_numerator(product), value_denominator(product))
    }
}

/// Every element of a longer list of `long_len` elements has its spread index within a
/// shorter list of `short_len` elements. (The index is computed with rounding, so for
/// lists of astronomical length it could overshoot; the lists are indexed with it, which
/// would then panic.)
pub open spec fn spread_fits(short_len: nat, long_len: nat) -> bool {
    forall|index: nat| index < long_len ==> #[trigger] spread_index(index, short_len, long_len)
        < short_len
}

/// Every element of `long`, in order, paired with the element of `short` at its spread index.
pub open spec fn spread_pairs<T>(short: Seq<T>, long: Seq<T>) -> Seq<(T, T)> {
    Seq::new(
        long.len(),
        |i: int| (short[spread_index(i as nat, short.len(), long.len()) as int], long[i]),
    )
}

/// The elements of `first` and `second` paired up position by position.
pub open spec fn zipped<T>(first: Seq<T>, second: Seq<T>) -> Seq<(T, T)> {
    Seq::new(first.len(), |i: int| (first[i], second[i]))
}

/// Each pair with its two components exchanged.
pub open spec fn swapped<T>(pairs: Seq<(T, T)>) -> Seq<(T, T)> {
    Seq::new(pairs.len(), |i: int| (pairs[i].1, pairs[i].0))
}

/// The pairs that `associate_lists` produces for two non-empty lists: lists of equal length
/// are zipped; otherwise every element of the longer list is paired with an element of the
/// shorter list, which is stretched evenly over it. The first component of each pair
/// always comes from `first`.
pub open spec fn associated<T>(first: Seq<T>, second: Seq<T>) -> Seq<(T, T)> {
    if first.len() == second.len() {
        zipped(first, second)
    } else if first.len() < second.len() {
        spread_pairs(first, second)
    } else {
        swapped(spread_pairs(second, first))
    }
}

/// Computes `spread_index(index, short_len, long_len)` exactly, on integers.
fn spread_index_of(index: usize, short_len: usize, long_len: usize) -> (result: usize)
    requires
        1 <= short_len < long_len,
        index < long_len,
        spread_index(index as nat, short_len as nat, long_len as nat) < short_len,
    ensures
        result == spread_index(index as nat, short_len as nat, long_len as nat),
{
    proof {
        lemma2_to64();
        lemma2_to64_rest();
        lemma_pow2_adds(56, 64);
    }
    let last_short: u128 = integer_to_binary64_of((short_len - 1) as u64);
    let last_long: u128 = integer_to_binary64_of((long_len - 1) as u64);
    if last_short == 0 {
        return 0;
    }
    proof {
        assert(last_long > 0);
        assert(last_short < last_long * pow2(53)) by (nonlinear_arith)
            requires
                last_short <= pow2(64),
                (long_len - 1) < pow2(53) ==> last_long == long_len - 1 && last_short
                    == short_len - 1,
                (long_len - 1) >= pow2(53) ==> last_long >= pow2(52),
                short_len < long_len,
                pow2(52) == 0x10_0000_0000_0000,
                pow2(53) == 0x20_0000_0000_0000,
                pow2(64) == 0x1_0000_0000_0000_0000,
        ;
    }
    let (ratio_significand, ratio_scale) = nearest(last_short, last_long);
    proof {
        if ratio_scale < 0 {
            let shift: nat = (-ratio_scale) as nat;
            lemma_pow2_strictly_increases(0, shift);
            assert(false) by (nonlinear_arith)
                requires
                    pow2(52) * (last_long * pow2(shift)) <= last_short,
                    last_short < last_long * pow2(53),
                    pow2(shift) >= 2,
                    last_long > 0,
                    pow2(53) == 2 * pow2(52),
            ;
        }
        lemma_pow2_adds(53, 64);
        assert(pow2(ratio_scale as nat) < pow2(117)) by (nonlinear_arith)
            requires
                last_short * pow2(ratio_scale as nat) < pow2(53) * last_long,
                last_short >= 1,
                last_long <= pow2(64),
                pow2(117) == pow2(53) * pow2(64),
        ;
        lemma_pow2_adds(53, 64);
        if ratio_scale >= 117 {
            if ratio_scale > 117 {
                lemma_pow2_strictly_increases(117, ratio_scale as nat);
            }
            assert(false);
        }
    }
    let ratio_denominator: u128 = crate::binary64::pow2_of(ratio_scale as u32);
    let position: u128 = integer_to_binary64_of(index as u64);
    proof {
        lemma_pow2_adds(56, 64);
        lemma_pow2_strictly_increases(117, 120);
        assert(ratio_significand * position <= pow2(117)) by (nonlinear_arith)
            requires
                ratio_significand <= pow2(53),
                position <= pow2(64),
                pow2(117) == pow2(53) * pow2(64),
        ;
    }
    let product_numerator: u128 = ratio_significand * position;
    let (product_significand, product_scale) = nearest(product_numerator, ratio_denominator);
    if product_significand == 0 {
        proof {
            assert(product_numerator == 0);
            let ratio = nearest_binary64(last_short as nat, last_long as nat);
            assert(value_numerator(ratio) == ratio_significand);
            assert(value_denominator(ratio) == ratio_denominator);
            assert(value_numerator(ratio) * integer_to_binary64(index as nat) == 0);
            let product = nearest_binary64(0, ratio_denominator as nat);
            assert(product == (0nat, 0int));
            assert(value_denominator(product) == 1);
            lemma_fundamental_div_mod_converse(1, 2, 0, 1);
            assert(round_half_away(0, 1) == 0);
        }
        return 0;
    }
    if product_scale >= 0 {
        if product_scale >= 55 {
            proof {
                let den: int = pow2(product_scale as nat) as int;
                if product_scale > 55 {
                    lemma_pow2_strictly_increases(55, product_scale as nat);
                }
                lemma_pow2_adds(53, 2);
                lemma_fundamental_div_mod_converse(
                    2 * (product_significand as int) + den,
                    2 * den,
                    0,
                    2 * (product_significand as int) + den,
                );
            }
            return 0;
        }
        let denominator: u128 = crate::binary64::pow2_of(product_scale as u32);
        proof {
            if product_scale < 55 {
                lemma_pow2_strictly_increases(product_scale as nat, 55);
            }
            lemma_pow2_adds(53, 2);
        }
        let rounded: u128 = (2 * product_significand + denominator) / (2 * denominator);
        rounded as usize
    } else {
        let shift: u32 = (-product_scale) as u32;
        proof {
            lemma_pow2_pos(shift as nat);
            assert(pow2(52) * pow2(shift as nat) <= pow2(117)) by (nonlinear_arith)
                requires
                    pow2(52) * (ratio_denominator * pow2(shift as nat)) <= product_numerator,
                    product_numerator <= pow2(117),
                    ratio_denominator >= 1,
            ;
            lemma_pow2_adds(52, shift as nat);
            lemma_pow2_adds(52, 65);
            if shift > 65 {
                lemma_pow2_strictly_increases(117, (52 + shift) as nat);
                assert(false);
            }
            if shift < 65 {
                lemma_pow2_strictly_increases(shift as nat, 65);
            }
            lemma_pow2_adds(53, 65);
            assert(product_significand * pow2(shift as nat) <= pow2(118)) by (nonlinear_arith)
                requires
                    product_significand <= pow2(53),
                    pow2(shift as nat) <= pow2(65),
                    pow2(118) == pow2(53) * pow2(65),
            ;
            lemma_pow2_strictly_increases(118, 127);
        }
        let value: u128 = product_significand * crate::binary64::pow2_of(shift);
        proof {
            lemma_fundamental_div_mod_converse(2 * value + 1, 2, value as int, 1);
        }
        value as usize
    }
}

/// Associates elements of two lists with each other.
/// Elements of the shorter list are copied and distributed evenly to match the larger list.
///
/// Both lists must be non-empty.
pub fn associate_lists<T: Copy>(first_list: &[T], second_list: &[T]) -> (pairs: Vec<(T, T)>)
    requires
        first_list@.len() > 0,
        second_list@.len() > 0,
        first_list@.len() < second_list@.len() ==> spread_fits(
            first_list@.len(),
            second_list@.len(),
        ),
        second_list@.len() < first_list@.len() ==> spread_fits(
            second_list@.len(),
            first_list@.len(),
        ),
    ensures
        pairs@ == associated(first_list@, second_list@),
{
    if first_list.len() == second_list.len() {
        associate_lists_with_equal_lengths(first_list, second_list)
    } else if first_list.len() < second_list.len() {
        associate_lists_where_second_is_longer(first_list, second_list)
    } else {
        let reversed = associate_lists_where_second_is_longer(second_list, first_list);
        let mut pairs: Vec<(T, T)> = Vec::new();
        let mut index: usize = 0;
        while index < reversed.len()
            invariant
                index <= reversed@.len(),
                pairs@.len() == index,
                forall|i: int|
                    0 <= i < index ==> #[trigger] pairs@[i] == (reversed@[i].1, reversed@[i].0),
            decreases reversed@.len() - index,
        {
            let (second, first) = reversed[index];
            pairs.push((first, second));
            index = index + 1;
        }
        assert(pairs@ =~= swapped(reversed@));
        pairs
    }
}

pub fn associate_lists_where_second_is_longer<T: Copy>(first_list: &[T], second_list: &[T]) -> (pairs:
    Vec<(T, T)>)
    requires
        0 < first_list@.len() < second_list@.len(),
        spread_fits(first_list@.len(), second_list@.len()),
    ensures
        pairs@ == spread_pairs(first_list@, second_list@),
{
    let mut pairs: Vec<(T, T)> = Vec::new();
    let mut index: usize = 0;
    while index < second_list.len()
        invariant
            0 < first_list@.len() < second_list@.len(),
            spread_fits(first_list@.len(), second_list@.len()),
            index <= second_list@.len(),
            pairs@.len() == index,
            forall|i: int|
                0 <= i < index ==> #[trigger] pairs@[i] == spread_pairs(
                    first_list@,
                    second_list@,
                )[i],
        decreases second_list@.len() - index,
    {
        assert(spread_index(index as nat, first_list@.len(), second_list@.len()) < first_list@.len());
        let first_index: usize = spread_index_of(index, first_list.len(), second_list.len());
        pairs.push((first_list[first_index], second_list[index]));
        index = index + 1;
    }
    assert(pairs@ =~= spread_pairs(first_list@, second_list@));
    pairs
}

pub fn associate_lists_with_equal_lengths<T: Copy>(first_list: &[T], second_list: &[T]) -> (pairs: Vec<
    (T, T),
>)
    requires
        first_list@.len() == second_list@.len(),
    ensures
        pairs@ == zipped(first_list@, second_list@),
{
    let mut pairs: Vec<(T, T)> = Vec::new();
    let mut index: usize = 0;
    while index < first_list.len()
        invariant
            first_list@.len() == second_list@.len(),
            index <= first_list@.len(),
            pairs@.len() == index,
            forall|i: int|
                0 <= i < index ==> #[trigger] pairs@[i] == (first_list@[i], second_list@[i]),
        decreases first_list@.len() - index,
    {
        pairs.push((first_list[index], second_list[index]));
        index = index + 1;
    }
    assert(pairs@ =~= zipped(first_list@, second_list@));
    pairs
}

/// Associating two non-empty lists yields one pair for every element of the longer list.
pub proof fn law_pair_count<T>(first: Seq<T>, second: Seq<T>)
    requires
        first.len() > 0,
        second.len() > 0,
    ensures
        associated(first, second).len() == if first.len() >= second.len() {
            first.len()
        } else {
            second.len()
        },
{
}

/// Exchanging the two lists exchanges the two components of every pair.
pub proof fn law_swapping_lists_swaps_pairs<T>(first: Seq<T>, second: Seq<T>)
    requires
        first.len() > 0,
        second.len() > 0,
    ensures
        associated(second, first) == swapped(associated(first, second)),
{
    if first.len() == second.len() {
        assert(associated(second, first) =~= swapped(associated(first, second)));
    } else if first.len() < second.len() {
        assert(associated(second, first) =~= swapped(associated(first, second)));
    } else {
        let pairs = spread_pairs(second, first);
        assert(swapped(swapped(pairs)) =~= pairs);
    }
}

/// The first elements of both lists are paired with each other.
pub proof fn law_first_elements_are_paired<T>(first: Seq<T>, second: Seq<T>)
    requires
        first.len() > 0,
        second.len() > 0,
    ensures
        associated(first, second)[0] == (first[0], second[0]),
{
    if first.len() < second.len() {
        lemma_spread_index_of_first(first.len(), second.len());
    } else if first.len() > second.len() {
        lemma_spread_index_of_first(second.len(), first.len());
    }
}

proof fn lemma_spread_index_of_first(short_len: nat, long_len: nat)
    requires
        1 <= short_len < long_len,
    ensures
        spread_index(0, short_len, long_len) == 0,
{
    lemma2_to64();
    lemma_fundamental_div_mod_converse(1, 2, 0, 1);
    let last_short = integer_to_binary64((short_len - 1) as nat);
    let last_long = integer_to_binary64((long_len - 1) as nat);
    let ratio = nearest_binary64(last_short, last_long);
    assert(integer_to_binary64(0) == 0);
    assert(value_numerator(ratio) * 0 == 0);
    let product = nearest_binary64(0, value_denominator(ratio));
    assert(product == (0nat, 0int));
    assert(value_denominator(product) == 1);
}

/// Walking along the longer list, the index into the shorter list never goes back.
pub proof fn law_spread_index_never_decreases(
    index: nat,
    later: nat,
    short_len: nat,
    long_len: nat,
)
    requires
        1 <= short_len < long_len,
        index <= later,
    ensures
        spread_index(index, short_len, long_len) <= spread_index(later, short_len, long_len),
{
    let last_short = integer_to_binary64((short_len - 1) as nat);
    let last_long = integer_to_binary64((long_len - 1) as nat);
    let ratio = nearest_binary64(last_short, last_long);
    let numerator: nat = value_numerator(ratio);
    let denominator: nat = value_denominator(ratio);
    let position = integer_to_binary64(index);
    let later_position = integer_to_binary64(later);
    lemma_integer_to_binary64_monotone(index, later);
    lemma_value_denominator_positive(ratio);
    assert((numerator * position) * denominator <= (numerator * later_position) * denominator)
        by (nonlinear_arith)
        requires
            position <= later_position,
    ;
    lemma_nearest_monotone(
        numerator * position,
        denominator,
        numerator * later_position,
        denominator,
    );
    let product = nearest_binary64(numerator * position, denominator);
    let later_product = nearest_binary64(numerator * later_position, denominator);
    lemma_value_denominator_positive(product);
    lemma_value_denominator_positive(later_product);
    lemma_round_half_away_monotone(
        value_numerator(product),
        value_denominator(product),
        value_numerator(later_product),
        value_denominator(later_product),
    );
}

/// The last element of the longer list is paired with the last element of the shorter one,
/// for a shorter list of at most `2^50` elements (beyond that the rounding of the spread was
/// not bounded here).
pub proof fn law_last_elements_are_paired(short_len: nat, long_len: nat)
    requires
        1 <= short_len < long_len,
        short_len <= pow2(50),
    ensures
        spread_index((long_len - 1) as nat, short_len, long_len) == short_len - 1,
{
    lemma2_to64();
    lemma2_to64_rest();
    let a: nat = (short_len - 1) as nat;
    let b: nat = (long_len - 1) as nat;
    let last_short = integer_to_binary64(a);
    let last_long = integer_to_binary64(b);
    assert(last_short == a);
    lemma_integer_to_binary64_monotone(1, b);
    assert(last_long >= 1);
    let ratio = nearest_binary64(last_short, last_long);
    let rn: nat = value_numerator(ratio);
    let rd: nat = value_denominator(ratio);
    lemma_value_denominator_positive(ratio);
    if a == 0 {
        assert(rn == 0);
        assert(rn * last_long == 0);
        let product = nearest_binary64(0, rd);
        assert(value_denominator(product) == 1);
        lemma_fundamental_div_mod_converse(1, 2, 0, 1);
        return;
    }
    lemma_nearest_error(a, last_long);
    crate::binary64::lemma_nearest_numerator_positive(a, last_long);
    let n: nat = rn * last_long;
    assert(n > 0) by (nonlinear_arith)
        requires
            rn > 0,
            last_long >= 1,
            n == rn * last_long,
    ;
    let product = nearest_binary64(n, rd);
    let pn: nat = value_numerator(product);
    let pd: nat = value_denominator(product);
    lemma_value_denominator_positive(product);
    lemma_nearest_error(n, rd);
    let big: int = pow2(53) as int;
    let e1: int = rn * last_long - a * rd;
    let e2: int = pn * rd - n * pd;
    let x: int = pn - a * pd;
    assert(x * rd == e2 + pd * e1) by (nonlinear_arith)
        requires
            e1 == rn * last_long - a * rd,
            e2 == pn * rd - n * pd,
            x == pn - a * pd,
            n == rn * last_long,
    ;
    assert(big * n <= big * a * rd + a * rd) by (nonlinear_arith)
        requires
            big * e1 <= a * rd,
            e1 == rn * last_long - a * rd,
            n == rn * last_long,
    ;
    assert(big * big * (x * rd) <= a * rd * pd * (2 * big + 1)) by (nonlinear_arith)
        requires
            x * rd == e2 + pd * e1,
            big * e2 <= n * pd,
            big * e1 <= a * rd,
            big * n <= big * a * rd + a * rd,
            pd > 0,
            big > 0,
    ;
    assert(-(big * big * (x * rd)) <= a * rd * pd * (2 * big + 1)) by (nonlinear_arith)
        requires
            x * rd == e2 + pd * e1,
            big * (n * pd - pn * rd) <= n * pd,
            e2 == pn * rd - n * pd,
            big * (a * rd - rn * last_long) <= a * rd,
            e1 == rn * last_long - a * rd,
            big * n <= big * a * rd + a * rd,
            pd > 0,
            big > 0,
    ;
    assert(2 * x < pd && -pd < 2 * x) by (nonlinear_arith)
        requires
            big * big * (x * rd) <= a * rd * pd * (2 * big + 1),
            -(big * big * (x * rd)) <= a * rd * pd * (2 * big + 1),
            big == 0x20_0000_0000_0000,
            a < 0x4_0000_0000_0000,
            rd > 0,
            pd > 0,
    ;
    assert(a * (2 * pd) == 2 * pd * a) by (nonlinear_arith);
    assert(0 <= (2 * pn + pd) - 2 * pd * a < 2 * pd) by (nonlinear_arith)
        requires
            x == pn - a * pd,
            2 * x < pd,
            -pd < 2 * x,
    ;
    lemma_fundamental_div_mod_converse(
        (2 * pn + pd) as int,
        (2 * pd) as int,
        a as int,
        (2 * pn + pd) - 2 * pd * a,
    );
    assert(spread_index(b, short_len, long_len) == round_half_away(pn, pd));
}

/// The binary64 product of the spread ratio with a position, as a value
spec fn spread_product(index: nat, short_len: nat, long_len: nat) -> (nat, int) {
    let ratio = nearest_binary64(
        integer_to_binary64((short_len - 1) as nat),
        integer_to_binary64((long_len - 1) as nat),
    );
    nearest_binary64(
        value_numerator(ratio) * integer_to_binary64(index),
        value_denominator(ratio),
    )
}

/// Walking along the longer list, the index into the shorter list never skips an element,
/// for a longer list of at most `2^25` elements (beyond that the rounding of the spread was
/// not bounded here).
pub proof fn law_spread_index_never_skips(index: nat, short_len: nat, long_len: nat)
    requires
        1 <= short_len < long_len,
        long_len <= pow2(25),
        index + 1 < long_len,
    ensures
        spread_index(index + 1, short_len, long_len) <= spread_index(index, short_len, long_len)
            + 1,
{
    lemma2_to64();
    lemma2_to64_rest();
    let a: nat = (short_len - 1) as nat;
    let b: nat = (long_len - 1) as nat;
    assert(integer_to_binary64(a) == a);
    assert(integer_to_binary64(b) == b);
    assert(integer_to_binary64(index) == index);
    assert(integer_to_binary64(index + 1) == index + 1);
    let ratio = nearest_binary64(a, b);
    let rn: nat = value_numerator(ratio);
    let rd: nat = value_denominator(ratio);
    lemma_value_denominator_positive(ratio);
    let first = spread_product(index, short_len, long_len);
    let second = spread_product(index + 1, short_len, long_len);
    let p1n: nat = value_numerator(first);
    let p1d: nat = value_denominator(first);
    let p2n: nat = value_numerator(second);
    let p2d: nat = value_denominator(second);
    lemma_value_denominator_positive(first);
    lemma_value_denominator_positive(second);
    let big: int = pow2(53) as int;
    if a == 0 {
        assert(rn == 0);
        assert(rn * index == 0 && rn * (index + 1) == 0) by (nonlinear_arith)
            requires
                rn == 0,
        ;
        assert(p2n == 0);
        assert(p2n * p1d <= (p1n + p1d) * p2d) by (nonlinear_arith)
            requires
                p2n == 0,
        ;
    } else {
        lemma_nearest_error(a, b);
        crate::binary64::lemma_nearest_numerator_positive(a, b);
        assert(rn * (index + 1) > 0) by (nonlinear_arith)
            requires
                rn > 0,
        ;
        lemma_nearest_error(rn * (index + 1), rd);
        assert(big * (rn * index * p1d - p1n * rd) <= rn * index * p1d) by {
            if index > 0 {
                assert(rn * index > 0) by (nonlinear_arith)
                    requires
                        rn > 0,
                        index > 0,
                ;
                lemma_nearest_error(rn * index, rd);
            } else {
                assert(rn * index * p1d == 0 && p1n * rd >= 0) by (nonlinear_arith)
                    requires
                        index == 0,
                ;
            }
        }
        assert(big * (p2n * rd) <= (big + 1) * (rn * (index + 1) * p2d)) by (nonlinear_arith)
            requires
                big * (p2n * rd - rn * (index + 1) * p2d) <= rn * (index + 1) * p2d,
        ;
        assert((big - 1) * (rn * index * p1d) <= big * (p1n * rd)) by (nonlinear_arith)
            requires
                big * (rn * index * p1d - p1n * rd) <= rn * index * p1d,
        ;
        assert(big * (rn * b) <= (big + 1) * (a * rd)) by (nonlinear_arith)
            requires
                big * (rn * b - a * rd) <= a * rd,
        ;
        assert((big + 1) * a * (2 * index + big + 1) <= big * big * b) by (nonlinear_arith)
            requires
                a + 1 <= b,
                index + 1 <= b,
                b <= 0x200_0000,
                big == 0x20_0000_0000_0000,
        ;
        assert(rn * (2 * index + big + 1) <= big * rd) by (nonlinear_arith)
            requires
                big * (rn * b) <= (big + 1) * (a * rd),
                (big + 1) * a * (2 * index + big + 1) <= big * big * b,
                b > 0,
                big > 0,
                rd > 0,
        ;
        let t: int = (p1d * p2d) as int;
        let u: int = (rn * (index + 1)) as int;
        let w: int = (rn * index) as int;
        assert(t > 0) by (nonlinear_arith)
            requires
                p1d > 0,
                p2d > 0,
                t == p1d * p2d,
        ;
        assert(big * rd * (p2n * p1d) <= (big + 1) * u * t) by (nonlinear_arith)
            requires
                big * (p2n * rd) <= (big + 1) * (rn * (index + 1) * p2d),
                u == rn * (index + 1),
                t == p1d * p2d,
                p1d > 0,
        ;
        assert((big - 1) * w * t <= big * rd * (p1n * p2d)) by (nonlinear_arith)
            requires
                (big - 1) * (rn * index * p1d) <= big * (p1n * rd),
                w == rn * index,
                t == p1d * p2d,
                p2d > 0,
        ;
        assert((big + 1) * u - (big - 1) * w <= big * rd) by (nonlinear_arith)
            requires
                rn * (2 * index + big + 1) <= big * rd,
                u == rn * (index + 1),
                w == rn * index,
        ;
        assert(((big + 1) * u - (big - 1) * w) * t <= big * rd * t) by (nonlinear_arith)
            requires
                (big + 1) * u - (big - 1) * w <= big * rd,
                t > 0,
        ;
        assert(big * rd * ((p1n + p1d) * p2d) == big * rd * (p1n * p2d) + big * rd * t)
            by (nonlinear_arith)
            requires
                t == p1d * p2d,
        ;
        assert(((big + 1) * u - (big - 1) * w) * t == (big + 1) * u * t - (big - 1) * w * t)
            by (nonlinear_arith);
        assert(big * rd * (p2n * p1d) <= big * rd * ((p1n + p1d) * p2d));
        assert(p2n * p1d <= (p1n + p1d) * p2d) by (nonlinear_arith)
            requires
                big * rd * (p2n * p1d) <= big * rd * ((p1n + p1d) * p2d),
                big > 0,
                rd > 0,
        ;
    }
    lemma_round_half_away_monotone(p2n, p2d, p1n + p1d, p1d);
    vstd::arithmetic::div_mod::lemma_div_plus_one((2 * p1n + p1d) as int, (2 * p1d) as int);
    assert(round_half_away(p1n + p1d, p1d) == round_half_away(p1n, p1d) + 1);
    assert(spread_index(index, short_len, long_len) == round_half_away(p1n, p1d));
    assert(spread_index(index + 1, short_len, long_len) == round_half_away(p2n, p2d));
}

/// For a shorter list of at most `2^50` elements, every spread index lies within it.
pub proof fn law_spread_fits(short_len: nat, long_len: nat)
    requires
        1 <= short_len < long_len,
        short_len <= pow2(50),
    ensures
        spread_fits(short_len, long_len),
{
    assert forall|index: nat| index < long_len implies #[trigger] spread_index(
        index,
        short_len,
        long_len,
    ) < short_len by {
        law_spread_index_never_decreases(index, (long_len - 1) as nat, short_len, long_len);
        law_last_elements_are_paired(short_len, long_len);
    }
}

/// The shorter list is stretched proportionally over the longer one: the element at `index`
/// of the longer list is paired with the element of the shorter list nearest to the
/// proportional position `index * (short_len - 1) / (long_len - 1)`, up to binary64 rounding:
/// `|spread_index * (long_len - 1) - index * (short_len - 1)|` is at most half of
/// `long_len - 1` plus `2^-50` of `index * (short_len - 1)`.
pub proof fn law_spread_index_is_proportional(index: nat, short_len: nat, long_len: nat)
    requires
        1 <= short_len < long_len,
        index < long_len,
    ensures
        2 * pow2(50) * (spread_index(index, short_len, long_len) * (long_len - 1) - index * (
        short_len - 1)) <= pow2(50) * (long_len - 1) + 2 * index * (short_len - 1),
        2 * pow2(50) * (index * (short_len - 1) - spread_index(index, short_len, long_len) * (
        long_len - 1)) <= pow2(50) * (long_len - 1) + 2 * index * (short_len - 1),
{
    lemma2_to64();
    lemma2_to64_rest();
    let a: nat = (short_len - 1) as nat;
    let b: nat = (long_len - 1) as nat;
    let k: nat = spread_index(index, short_len, long_len);
    let big: int = pow2(53) as int;
    let half_margin: int = pow2(50) as int;
    assert(half_margin == 0x4_0000_0000_0000);
    if a == 0 || index == 0 {
        if index == 0 {
            lemma_spread_index_of_first(short_len, long_len);
        } else {
            let ratio = nearest_binary64(integer_to_binary64(a), integer_to_binary64(b));
            assert(integer_to_binary64(a) == 0);
            assert(value_numerator(ratio) == 0);
            assert(value_numerator(ratio) * integer_to_binary64(index) == 0) by (nonlinear_arith)
                requires
                    value_numerator(ratio) == 0,
            ;
            let product = nearest_binary64(0, value_denominator(ratio));
            assert(value_denominator(product) == 1);
            lemma_fundamental_div_mod_converse(1, 2, 0, 1);
            assert(k == 0);
        }
        assert(k * b - index * a == 0 && index * a - k * b == 0) by (nonlinear_arith)
            requires
                k == 0,
                a == 0 || index == 0,
        ;
        return;
    }
    let last_short = integer_to_binary64(a);
    let last_long = integer_to_binary64(b);
    let position = integer_to_binary64(index);
    lemma_integer_to_binary64_error(a);
    lemma_integer_to_binary64_error(b);
    lemma_integer_to_binary64_error(index);
    let aa: int = last_short as int;
    let bb: int = last_long as int;
    let ii: int = position as int;
    assert(aa > 0 && bb > 0 && ii > 0) by (nonlinear_arith)
        requires
            big * (a - aa) <= a,
            big * (b - bb) <= b,
            big * (index - ii) <= index,
            a >= 1,
            b >= 1,
            index >= 1,
            big == 0x20_0000_0000_0000,
    ;
    let ratio = nearest_binary64(last_short, last_long);
    let rn: int = value_numerator(ratio) as int;
    let rd: int = value_denominator(ratio) as int;
    lemma_value_denominator_positive(ratio);
    lemma_nearest_error(last_short, last_long);
    crate::binary64::lemma_nearest_numerator_positive(last_short, last_long);
    let n: nat = value_numerator(ratio) * position;
    assert(n > 0) by (nonlinear_arith)
        requires
            rn > 0,
            ii > 0,
            n == rn * ii,
    ;
    let product = nearest_binary64(n, value_denominator(ratio));
    let pn: int = value_numerator(product) as int;
    let pd: int = value_denominator(product) as int;
    lemma_value_denominator_positive(product);
    lemma_nearest_error(n, value_denominator(ratio));
    assert(k == round_half_away(pn as nat, pd as nat));
    let ia: int = (index * a) as int;
    let kb: int = (k * b) as int;
    // rounding half away from zero
    lemma_fundamental_div_mod((2 * pn + pd) as int, (2 * pd) as int);
    assert(2 * pd * k <= 2 * pn + pd && 2 * pn + pd < 2 * pd * (k + 1)) by (nonlinear_arith)
        requires
            k == (2 * pn + pd) / (2 * pd),
            2 * pn + pd == (2 * pd) * ((2 * pn + pd) / (2 * pd)) + (2 * pn + pd) % (2 * pd),
            0 <= (2 * pn + pd) % (2 * pd) < 2 * pd,
    ;
    // the binary64 product lies within a relative error of about 5 * 2^-53 of index * a / b
    assert(big * pn * rd <= (big + 1) * rn * ii * pd && (big - 1) * rn * ii * pd <= big * pn
        * rd) by (nonlinear_arith)
        requires
            big * (pn * rd - n * pd) <= n * pd,
            big * (n * pd - pn * rd) <= n * pd,
            n == rn * ii,
    ;
    assert(big * rn * bb <= (big + 1) * aa * rd && (big - 1) * aa * rd <= big * rn * bb)
        by (nonlinear_arith)
        requires
            big * (rn * bb - aa * rd) <= aa * rd,
            big * (aa * rd - rn * bb) <= aa * rd,
    ;
    // upper bound
    assert(big * big * pn * bb <= (big + 1) * (big + 1) * pd * ii * aa) by {
        assert(big * big * pn * bb * rd <= (big + 1) * (big + 1) * pd * ii * aa * rd)
            by (nonlinear_arith)
            requires
                big * pn * rd <= (big + 1) * rn * ii * pd,
                big * rn * bb <= (big + 1) * aa * rd,
                big > 0,
                bb > 0,
                ii > 0,
                pd > 0,
        ;
        assert(big * big * pn * bb <= (big + 1) * (big + 1) * pd * ii * aa) by (nonlinear_arith)
            requires
                big * big * pn * bb * rd <= (big + 1) * (big + 1) * pd * ii * aa * rd,
                rd > 0,
        ;
    }
    assert(big * big * big * (big - 1) * pn * b <= (big + 1) * (big + 1) * (big + 1) * (big
        + 1) * pd * ia) by (nonlinear_arith)
        requires
            big * big * pn * bb <= (big + 1) * (big + 1) * pd * ii * aa,
            big * ii <= (big + 1) * index,
            big * aa <= (big + 1) * a,
            (big - 1) * b <= big * bb,
            ia == index * a,
            big > 1,
            pn >= 0,
            pd > 0,
            ii > 0,
            aa > 0,
    ;
    let up: int = (big + 1) * (big + 1) * (big + 1) * (big + 1);
    let m: int = big * big * big * (big - 1);
    assert(up == 0x100000000000020000000000001800000000000080000000000001);
    assert(m == 0xfffffffffffff8000000000000000000000000000000000000000);
    assert(2 * m * kb <= 2 * up * ia + m * b) by (nonlinear_arith)
        requires
            m * pn * b <= up * pd * ia,
            2 * pd * k <= 2 * pn + pd,
            kb == k * b,
            pd > 0,
            m > 0,
            b >= 0,
            ia >= 0,
    ;
    assert(2 * half_margin * (kb - ia) <= half_margin * b + 2 * ia) by (nonlinear_arith)
        requires
            2 * m * kb <= 2 * up * ia + m * b,
            half_margin * up <= half_margin * m + m,
            m > 0,
            ia >= 0,
            half_margin > 0,
    ;
    // lower bound
    assert((big - 1) * (big - 1) * ii * aa * pd <= big * big * pn * bb) by {
        assert((big - 1) * (big - 1) * ii * aa * pd * rd <= big * big * pn * bb * rd)
            by (nonlinear_arith)
            requires
                (big - 1) * rn * ii * pd <= big * pn * rd,
                (big - 1) * aa * rd <= big * rn * bb,
                big > 1,
                bb > 0,
                ii > 0,
                pd > 0,
        ;
        assert((big - 1) * (big - 1) * ii * aa * pd <= big * big * pn * bb) by (nonlinear_arith)
            requires
                (big - 1) * (big - 1) * ii * aa * pd * rd <= big * big * pn * bb * rd,
                rd > 0,
        ;
    }
    let e1: int = big - 1;
    let sq: int = e1 * e1;
    let prod_small: int = ii * aa;
    assert(sq * ia <= (big * big) * prod_small) by (nonlinear_arith)
        requires
            e1 * index <= big * ii,
            e1 * a <= big * aa,
            ia == index * a,
            sq == e1 * e1,
            prod_small == ii * aa,
            e1 > 0,
            index >= 0,
            a >= 0,
    ;
    assert(sq * sq * ia * pd <= sq * (big * big) * prod_small * pd) by (nonlinear_arith)
        requires
            sq * ia <= (big * big) * prod_small,
            sq > 0,
            pd > 0,
    ;
    assert(sq * (big * big) * prod_small * pd <= (big * big) * (big * big) * pn * bb)
        by (nonlinear_arith)
        requires
            (big - 1) * (big - 1) * ii * aa * pd <= big * big * pn * bb,
            sq == (big - 1) * (big - 1),
            prod_small == ii * aa,
            big > 0,
    ;
    assert((big * big) * (big * big) * pn * bb <= big * big * big * (big + 1) * pn * b)
        by (nonlinear_arith)
        requires
            big * bb <= (big + 1) * b,
            big > 0,
            pn >= 0,
    ;
    assert((big - 1) * (big - 1) * (big - 1) * (big - 1) * ia * pd <= big * big * big * (big
        + 1) * pn * b) by (nonlinear_arith)
        requires
            sq * sq * ia * pd <= sq * (big * big) * prod_small * pd,
            sq * (big * big) * prod_small * pd <= (big * big) * (big * big) * pn * bb,
            (big * big) * (big * big) * pn * bb <= big * big * big * (big + 1) * pn * b,
            sq == (big - 1) * (big - 1),
    ;
    let low: int = (big - 1) * (big - 1) * (big - 1) * (big - 1);
    let nn: int = big * big * big * (big + 1);
    assert(low == 0xffffffffffffe00000000000017ffffffffffff80000000000001);
    assert(nn == 0x100000000000008000000000000000000000000000000000000000);
    assert(2 * low * ia <= nn * (2 * kb + b)) by (nonlinear_arith)
        requires
            low * ia * pd <= nn * pn * b,
            2 * pn + pd < 2 * pd * (k + 1),
            kb == k * b,
            pd > 0,
            nn > 0,
            b >= 0,
    ;
    assert(2 * half_margin * (ia - kb) <= half_margin * b + 2 * ia) by (nonlinear_arith)
        requires
            2 * low * ia <= nn * (2 * kb + b),
            half_margin * (nn - low) <= nn,
            nn > 0,
            ia >= 0,
            half_margin > 0,
    ;    assert(index * (short_len - 1) == ia && 2 * index * (short_len - 1) == 2 * ia && k * (
        long_len - 1) == kb) by (nonlinear_arith)
        requires
            ia == index * a,
            kb == k * b,
            a == short_len - 1,
            b == long_len - 1,
    ;
}

} // verus!
