//! Double-precision arithmetic on numbers that are not negative: every result
//! has 53 significant bits and is the nearest such number, the even one of two
//! that are equally near. Numbers are held as integers; one with a fraction is
//! held as a multiple of 2^-52.

use vstd::prelude::*;

verus! {

/// 2^53: integers below it need no rounding.
pub const EXACT: u128 = 0x20_0000_0000_0000;

/// The number one as a multiple of 2^-52.
pub const ONE: u128 = 0x10_0000_0000_0000;

/// One half as a multiple of 2^-52.
pub const HALF: u128 = 0x8_0000_0000_0000;

/// What the last of the 53 significant bits of `n` is worth.
pub open spec fn unit_of(n: nat) -> nat
    decreases n,
{
    if n < EXACT {
        1
    } else {
        2 * unit_of(n / 2)
    }
}

/// The integer nearest to a quotient, the even one of two that are equally near.
pub open spec fn nearest(num: nat, den: nat) -> nat {
    let q = num / den;
    let r = num % den;
    if 2 * r > den || (2 * r == den && q % 2 == 1) {
        q + 1
    } else {
        q
    }
}

/// The nearest number to `n` with 53 significant bits. With `n` a multiple of
/// 2^-52, so is the result.
pub open spec fn rounded(n: nat) -> nat {
    nearest(n, unit_of(n)) * unit_of(n)
}

/// The quotient of two numbers with 53 significant bits, as a multiple of
/// 2^-52, where it is at least one and less than four.
pub open spec fn small_quotient(num: nat, den: nat) -> nat {
    if num < 2 * den {
        nearest(num * ONE as nat, den)
    } else {
        2 * nearest(num * HALF as nat, den)
    }
}

/// The integer nearest to a multiple of 2^-52, halves up.
pub open spec fn to_integer(n: nat) -> nat {
    ((n + HALF) / ONE as int) as nat
}

/// The integer nearest to a quotient.
pub(crate) fn nearest_of(num: u128, den: u128) -> (q: u128)
    requires
        0 < den <= 0x8000_0000_0000_0000_0000_0000_0000_0000,
        num < 0x8000_0000_0000_0000_0000_0000_0000_0000,
    ensures
        q == nearest(num as nat, den as nat),
{
    let q: u128 = num / den;
    let r: u128 = num % den;
    assert(q <= num) by (nonlinear_arith)
        requires
            q == num / den,
            den > 0,
    ;
    // Twice the remainder may not fit, so it is compared with what is left.
    if r > den - r || (r == den - r && q % 2 == 1) {
        q + 1
    } else {
        q
    }
}

/// The unit of a number is at least one, and no more than the number unless
/// that needs no rounding.
pub proof fn lemma_unit(n: nat)
    ensures
        unit_of(n) >= 1,
        n < EXACT ==> unit_of(n) == 1,
        n >= EXACT ==> unit_of(n) * ONE <= n,
        n < unit_of(n) * EXACT,
    decreases n,
{
    if n >= EXACT {
        lemma_unit(n / 2);
    }
}

/// The nearest number to `n` with 53 significant bits.
pub(crate) fn round(n: u128) -> (result: u128)
    requires
        n < 0x1000_0000_0000_0000_0000_0000_0000_0000,
    ensures
        result == rounded(n as nat),
        result <= 2 * n,
{
    let mut unit: u128 = 1;
    let mut top: u128 = n;
    assert(1 * unit_of(n as nat) == unit_of(n as nat));
    while top >= EXACT
        invariant
            unit >= 1,
            unit * top <= n,
            n < 0x1000_0000_0000_0000_0000_0000_0000_0000,
            unit * unit_of(top as nat) == unit_of(n as nat),
        decreases top,
    {
        proof {
            let half = top / 2;
            assert(unit * 2 <= unit * top) by (nonlinear_arith)
                requires
                    unit >= 1,
                    top >= 2,
            ;
            assert((unit * 2) * half <= unit * top) by (nonlinear_arith)
                requires
                    unit >= 1,
                    half * 2 <= top,
            ;
            assert((unit * 2) * unit_of(half as nat) == unit * (2 * unit_of(half as nat)))
                by (nonlinear_arith);
        }
        top = top / 2;
        unit = unit * 2;
    }
    proof {
        assert(unit * 1 == unit);
        assert(unit == unit_of(n as nat));
        lemma_unit(n as nat);
    }
    assert(unit <= 0x8000_0000_0000_0000_0000_0000_0000_0000) by {
        if n < EXACT {
        } else {
            assert(unit <= n);
        }
    }
    let count: u128 = nearest_of(n, unit);
    proof {
        lemma_nearest_times(n as nat, unit as nat);
    }
    count * unit
}

/// Rounding to a multiple adds at most the number itself.
proof fn lemma_nearest_times(n: nat, unit: nat)
    requires
        unit >= 1,
        unit == 1 || unit <= n,
    ensures
        nearest(n, unit) * unit <= 2 * n,
{
    let q = n / unit;
    let r = n % unit;
    vstd::arithmetic::div_mod::lemma_fundamental_div_mod(n as int, unit as int);
    assert((q + 1) * unit <= 2 * n && q * unit <= n || unit == 1) by (nonlinear_arith)
        requires
            n == unit * q + r,
            0 <= r < unit,
            unit <= n || unit == 1,
    ;
    if unit == 1 {
        assert(r == 0);
        assert(q * 1 == n && (q + 1) * 1 == n + 1);
    }
}

/// A quotient is rounded to no more than an integer that it does not exceed.
pub proof fn lemma_nearest_at_most(num: nat, den: nat, most: nat)
    requires
        0 < den,
        num <= most * den,
    ensures
        nearest(num, den) <= most,
{
    let q = num / den;
    let r = num % den;
    vstd::arithmetic::div_mod::lemma_fundamental_div_mod(num as int, den as int);
    assert(q < most || (q == most && r == 0)) by (nonlinear_arith)
        requires
            num == den * q + r,
            0 <= r < den,
            num <= most * den,
    ;
}

/// A quotient is rounded to no less than an integer that it reaches.
pub proof fn lemma_nearest_at_least(num: nat, den: nat, least: nat)
    requires
        0 < den,
        num >= least * den,
    ensures
        nearest(num, den) >= least,
{
    let q = num / den;
    let r = num % den;
    vstd::arithmetic::div_mod::lemma_fundamental_div_mod(num as int, den as int);
    assert(q >= least) by (nonlinear_arith)
        requires
            num == den * q + r,
            0 <= r < den,
            num >= least * den,
    ;
}

/// Units are powers of two.
proof fn lemma_unit_is_power(n: nat) -> (e: nat)
    ensures
        unit_of(n) == vstd::arithmetic::power2::pow2(e),
    decreases n,
{
    if n < EXACT {
        vstd::arithmetic::power2::lemma2_to64();
        0
    } else {
        let e = lemma_unit_is_power(n / 2);
        vstd::arithmetic::power2::lemma_pow2_unfold(e + 1);
        e + 1
    }
}

/// A unit that is not larger than a half goes into it a whole number of times.
proof fn lemma_unit_divides(n: nat) -> (times: nat)
    requires
        unit_of(n) <= HALF,
    ensures
        unit_of(n) * times == HALF,
{
    let e = lemma_unit_is_power(n);
    vstd::arithmetic::power2::lemma2_to64();
    vstd::arithmetic::power2::lemma2_to64_rest();
    if e > 51 {
        vstd::arithmetic::power2::lemma_pow2_strictly_increases(51, e);
    }
    vstd::arithmetic::power2::lemma_pow2_adds(e, (51 - e) as nat);
    vstd::arithmetic::power2::pow2((51 - e) as nat)
}

/// A number below 2^53 needs no rounding.
pub proof fn lemma_rounded_exact(n: nat)
    requires
        n < EXACT,
    ensures
        rounded(n) == n,
{
    assert(n / 1 == n && n % 1 == 0);
    assert(nearest(n, 1) * 1 == n);
}

/// A number is rounded to no more than a half times an integer below 2^53
/// that it does not exceed.
pub proof fn lemma_rounded_at_most(n: nat, k: nat)
    requires
        n <= k * HALF,
        k < EXACT,
    ensures
        rounded(n) <= k * HALF,
{
    let unit = unit_of(n);
    lemma_unit(n);
    if n < EXACT {
        lemma_rounded_exact(n);
    } else if unit <= HALF {
        let times = lemma_unit_divides(n);
        assert(k * HALF == (k * times) * unit) by (nonlinear_arith)
            requires
                unit * times == HALF,
        ;
        lemma_nearest_at_most(n, unit, k * times);
        assert(nearest(n, unit) * unit <= (k * times) * unit) by (nonlinear_arith)
            requires
                nearest(n, unit) <= k * times,
        ;
    } else {
        let e = lemma_unit_is_power(n);
        vstd::arithmetic::power2::lemma2_to64();
        vstd::arithmetic::power2::lemma2_to64_rest();
        if e < 52 {
            assert(e <= 51);
            if e < 51 {
                vstd::arithmetic::power2::lemma_pow2_strictly_increases(e, 51);
            }
        } else if e > 52 {
            vstd::arithmetic::power2::lemma_pow2_strictly_increases(52, e);
        }
        assert(unit >= ONE);
        assert(unit * ONE >= ONE * ONE) by (nonlinear_arith)
            requires
                unit >= ONE,
        ;
        assert(ONE * ONE == EXACT * HALF) by (nonlinear_arith)
            requires
                ONE == 0x10_0000_0000_0000,
                EXACT == 0x20_0000_0000_0000,
                HALF == 0x8_0000_0000_0000,
        ;
        assert(k * HALF < EXACT * HALF) by (nonlinear_arith)
            requires
                k < EXACT,
                HALF > 0,
        ;
    }
}

/// A number is rounded to no less than a half times an integer below 2^53
/// that it reaches.
pub proof fn lemma_rounded_at_least(n: nat, k: nat)
    requires
        n >= k * HALF,
        k < EXACT,
    ensures
        rounded(n) >= k * HALF,
{
    let unit = unit_of(n);
    lemma_unit(n);
    if n < EXACT {
        lemma_rounded_exact(n);
    } else if unit <= HALF {
        let times = lemma_unit_divides(n);
        assert(k * HALF == (k * times) * unit) by (nonlinear_arith)
            requires
                unit * times == HALF,
        ;
        lemma_nearest_at_least(n, unit, k * times);
        assert(nearest(n, unit) * unit >= (k * times) * unit) by (nonlinear_arith)
            requires
                nearest(n, unit) >= k * times,
        ;
    } else {
        let e = lemma_unit_is_power(n);
        vstd::arithmetic::power2::lemma2_to64();
        vstd::arithmetic::power2::lemma2_to64_rest();
        if e < 51 {
            vstd::arithmetic::power2::lemma_pow2_strictly_increases(e, 51);
        } else if e > 52 {
            vstd::arithmetic::power2::lemma_pow2_strictly_increases(52, e);
        }
        assert(unit >= ONE);
        assert(ONE * unit == unit * ONE) by (nonlinear_arith);
        lemma_nearest_at_least(n, unit, ONE as nat);
        assert(nearest(n, unit) * unit >= k * HALF) by (nonlinear_arith)
            requires
                nearest(n, unit) >= ONE,
                unit >= ONE,
                k < EXACT,
                ONE == 0x10_0000_0000_0000,
                EXACT == 0x20_0000_0000_0000,
                HALF == 0x8_0000_0000_0000,
        ;
    }
}

/// Rounding changes a number by at most half a unit.
pub proof fn lemma_rounding_error(n: nat)
    ensures
        -(unit_of(n) as int) <= 2 * (rounded(n) - n) <= unit_of(n),
        unit_of(n) == 1 || unit_of(n) * ONE <= n,
{
    let unit = unit_of(n);
    let q = n / unit;
    let r = n % unit;
    lemma_unit(n);
    vstd::arithmetic::div_mod::lemma_fundamental_div_mod(n as int, unit as int);
    assert((q + 1) * unit == q * unit + unit && q * unit == unit * q) by (nonlinear_arith);
}

} // verus!
