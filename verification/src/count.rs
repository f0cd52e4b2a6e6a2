//! Short numerals for splat counts.

use vstd::arithmetic::power2::{lemma2_to64, lemma_pow2_unfold, pow2};
use vstd::prelude::*;
use vstd::string::*;

use crate::text::{decimal, digit, law_numeral_reads_back, push_decimal};

verus! {

/// Two to the power 52: a binary64 quotient has this many units in its last
/// place or more, and less than twice as many.
pub const MANTISSA_LOW: u64 = 0x10_0000_0000_0000;

/// On which side of the exact quotient its nearest binary64 value lies.
#[derive(Clone, Copy, Debug, PartialEq, Eq, Structural)]
pub enum Side {
    Below,
    Exact,
    Above,
}

/// How far `num` is from reaching `target`.
pub open spec fn shortfall(num: int, target: int) -> nat {
    if num < target {
        (target - num) as nat
    } else {
        0
    }
}

/// `num`, doubled until `num / den` has 53 bits before the binary point.
pub open spec fn scaled(num: nat, den: nat) -> nat
    decreases shortfall(num as int, den * MANTISSA_LOW),
{
    if num == 0 || num >= den * MANTISSA_LOW {
        num
    } else {
        scaled(2 * num, den)
    }
}

/// On which side of `num / den` the nearest binary64 value lies, half-way
/// cases going to the even neighbour.
pub open spec fn quotient_side(num: nat, den: nat) -> Side {
    let rest = scaled(num, den) % den;
    let whole = scaled(num, den) / den;
    if rest == 0 {
        Side::Exact
    } else if 2 * rest < den || (2 * rest == den && whole % 2 == 0) {
        Side::Below
    } else {
        Side::Above
    }
}

/// How many steps of `step` make up `count`, to the nearest whole number. Half
/// a step goes to the side on which the binary64 value of `count / unit` lies,
/// and to the even number where that quotient is exact.
pub open spec fn rounded_steps(count: nat, unit: nat, step: nat) -> nat {
    let low = count / step;
    let rest = count % step;
    if 2 * rest < step {
        low
    } else if 2 * rest > step {
        low + 1
    } else {
        match quotient_side(count, unit) {
            Side::Below => low,
            Side::Above => low + 1,
            Side::Exact => low + low % 2,
        }
    }
}

/// What [`format_count`] writes.
pub open spec fn count_text(count: nat) -> Seq<char> {
    if count >= 1_000_000 {
        let h = rounded_steps(count, 1_000_000, 10_000);
        decimal(h / 100) + seq!['.', digit(h % 100 / 10), digit(h % 10), 'M']
    } else if count >= 10_000 {
        let t = rounded_steps(count, 1_000, 100);
        decimal(t / 10) + seq!['.', digit(t % 10), 'k']
    } else {
        decimal(count)
    }
}

/// On which side of `num / den` the nearest binary64 value lies.
fn find_side(num: u32, den: u32) -> (r: Side)
    requires
        0 < num,
        0 < den <= 1_000_000,
    ensures
        r == quotient_side(num as nat, den as nat),
{
    let target: u128 = den as u128 * MANTISSA_LOW as u128;
    let mut n: u128 = num as u128;
    assert(den * MANTISSA_LOW <= 1_000_000 * MANTISSA_LOW) by (nonlinear_arith)
        requires
            den <= 1_000_000,
    ;
    while n < target
        invariant
            0 < n,
            target == den * MANTISSA_LOW,
            target <= 1_000_000 * MANTISSA_LOW,
            scaled(n as nat, den as nat) == scaled(num as nat, den as nat),
        decreases shortfall(n as int, target as int),
    {
        n = 2 * n;
    }
    let rest: u128 = n % den as u128;
    let whole: u128 = n / den as u128;
    if rest == 0 {
        Side::Exact
    } else if 2 * rest < den as u128 || (2 * rest == den as u128 && whole % 2 == 0) {
        Side::Below
    } else {
        Side::Above
    }
}

/// `count` in whole steps; see [`rounded_steps`].
fn round_steps(count: u32, unit: u32, step: u32) -> (r: u64)
    requires
        0 < count,
        0 < unit <= 1_000_000,
        0 < step <= 10_000,
    ensures
        r == rounded_steps(count as nat, unit as nat, step as nat),
{
    let low: u64 = (count / step) as u64;
    let rest: u32 = count % step;
    if 2 * rest < step {
        low
    } else if 2 * rest > step {
        low + 1
    } else {
        match find_side(count, unit) {
            Side::Below => low,
            Side::Above => low + 1,
            Side::Exact => low + low % 2,
        }
    }
}

/// Appends the numeral of a number below ten.
fn push_digit(out: &mut String, d: u64)
    requires
        d < 10,
    ensures
        final(out)@ == old(out)@.push(digit(d as nat)),
{
    out.push((48 + d as u8) as char);
}

/// A splat count, kept short: millions with two decimals from a million on,
/// thousands with one from ten thousand on, else the count itself.
pub fn format_count(count: u32) -> (r: String)
    ensures
        r@ == count_text(count as nat),
{
    let mut r: String = String::new();
    if count >= 1_000_000 {
        let h: u64 = round_steps(count, 1_000_000, 10_000);
        push_decimal(&mut r, h / 100);
        r.push('.');
        push_digit(&mut r, h % 100 / 10);
        push_digit(&mut r, h % 10);
        r.push('M');
    } else if count >= 10_000 {
        let t: u64 = round_steps(count, 1_000, 100);
        push_decimal(&mut r, t / 10);
        r.push('.');
        push_digit(&mut r, t % 10);
        r.push('k');
    } else {
        push_decimal(&mut r, count as u64);
    }
    assert(r@ =~= count_text(count as nat));
    r
}

/// The written value is off by at most half a unit of its last decimal.
pub proof fn law_count_is_rounded_to_nearest(count: nat, unit: nat, step: nat)
    requires
        0 < step,
    ensures
        2 * (rounded_steps(count, unit, step) * step - count) <= step,
        2 * (count - rounded_steps(count, unit, step) * step) <= step,
{
    let low = count / step;
    assert(count == low * step + count % step) by (nonlinear_arith)
        requires
            low == count / step,
            0 < step,
    ;
    assert((low + 1) * step == low * step + step) by (nonlinear_arith);
}

/// The value of a quotient in binary64 is `m` units in its last place: `num`
/// doubled `k` times, which puts the quotient at or above `2^52` and below
/// `2^53`, is nearest to `m` times `den`, with ties to the even `m`. The side is
/// that of `m`.
pub proof fn law_side_is_that_of_the_nearest_value(num: nat, den: nat) -> (r: (nat, nat))
    requires
        0 < num < den * 0x20_0000_0000_0000,
        0 < den,
    ensures
        ({
            let n = num * pow2(r.0);
            let m = r.1;
            &&& den * 0x10_0000_0000_0000 <= n < den * 0x20_0000_0000_0000
            &&& 2 * (m * den - n) <= den
            &&& 2 * (n - m * den) <= den
            &&& 2 * (m * den - n) == den || 2 * (n - m * den) == den ==> m % 2 == 0
            &&& quotient_side(num, den) == Side::Exact <==> m * den == n
            &&& quotient_side(num, den) == Side::Below <==> m * den < n
            &&& quotient_side(num, den) == Side::Above <==> m * den > n
        }),
{
    let k = lemma_scaled(num, den);
    let n = num * pow2(k);
    let whole = n / den;
    let rest = n % den;
    assert(n == whole * den + rest && rest < den) by (nonlinear_arith)
        requires
            whole == n / den,
            rest == n % den,
            0 < den,
    ;
    assert((whole + 1) * den == whole * den + den) by (nonlinear_arith);
    if quotient_side(num, den) == Side::Above {
        (k, whole + 1)
    } else {
        (k, whole)
    }
}

proof fn lemma_scaled(num: nat, den: nat) -> (k: nat)
    requires
        0 < num < den * 0x20_0000_0000_0000,
        0 < den,
    ensures
        scaled(num, den) == num * pow2(k),
        den * 0x10_0000_0000_0000 <= scaled(num, den) < den * 0x20_0000_0000_0000,
    decreases shortfall(num as int, den * MANTISSA_LOW),
{
    if num >= den * MANTISSA_LOW {
        lemma2_to64();
        assert(num * 1 == num);
        0
    } else {
        let k = lemma_scaled(2 * num, den);
        lemma_pow2_unfold(k + 1);
        assert(2 * num * pow2(k) == num * (2 * pow2(k))) by (nonlinear_arith);
        k + 1
    }
}

/// A count in whole steps is the nearest number of steps; one that lies half-way
/// goes down, up or to the even number, as the binary64 quotient lies below,
/// above or right at it.
pub proof fn law_half_steps_follow_the_quotient(count: nat, unit: nat, step: nat)
    requires
        0 < step,
    ensures
        ({
            let r = rounded_steps(count, unit, step);
            let side = quotient_side(count, unit);
            &&& 2 * (r * step - count) <= step
            &&& 2 * (count - r * step) <= step
            &&& 2 * (count % step) == step ==> {
                &&& side == Side::Below ==> r * step < count
                &&& side == Side::Above ==> r * step > count
                &&& side == Side::Exact ==> r % 2 == 0
            }
        }),
{
    law_count_is_rounded_to_nearest(count, unit, step);
    let low = count / step;
    assert(count == low * step + count % step) by (nonlinear_arith)
        requires
            low == count / step,
            0 < step,
    ;
    assert((low + 1) * step == low * step + step) by (nonlinear_arith);
}

/// A count below ten thousand is written out; below a million it is the nearest
/// number of hundreds, as thousands with one decimal and a `k`; from there on it
/// is the nearest number of ten thousands, as millions with two decimals and an
/// `M`.
pub proof fn law_counts_by_size(count: nat) -> (r: nat)
    ensures
        count < 10_000 ==> count_text(count) == decimal(count),
        10_000 <= count < 1_000_000 ==> {
            &&& r == rounded_steps(count, 1_000, 100)
            &&& 2 * (r * 100 - count) <= 100
            &&& 2 * (count - r * 100) <= 100
            &&& count_text(count) == decimal(r / 10) + seq!['.'] + decimal(r % 10) + seq!['k']
        },
        1_000_000 <= count ==> {
            &&& r == rounded_steps(count, 1_000_000, 10_000)
            &&& 2 * (r * 10_000 - count) <= 10_000
            &&& 2 * (count - r * 10_000) <= 10_000
            &&& count_text(count) == decimal(r / 100) + seq!['.'] + decimal(r % 100 / 10) + decimal(
                r % 10,
            ) + seq!['M']
        },
{
    if count >= 1_000_000 {
        let r = rounded_steps(count, 1_000_000, 10_000);
        law_count_is_rounded_to_nearest(count, 1_000_000, 10_000);
        law_numeral_reads_back(r % 100 / 10);
        law_numeral_reads_back(r % 10);
        assert(count_text(count) =~= decimal(r / 100) + seq!['.'] + decimal(r % 100 / 10) + decimal(
            r % 10,
        ) + seq!['M']);
        r
    } else if count >= 10_000 {
        let r = rounded_steps(count, 1_000, 100);
        law_count_is_rounded_to_nearest(count, 1_000, 100);
        law_numeral_reads_back(r % 10);
        assert(count_text(count) =~= decimal(r / 10) + seq!['.'] + decimal(r % 10) + seq!['k']);
        r
    } else {
        0
    }
}

} // verus!
