//! What the bits of double-precision numbers stand for.

use vstd::arithmetic::power2::*;
use vstd::prelude::*;

use crate::json;
use crate::json::{Number, Order};

verus! {

/// The number that the magnitude bits of a double stand for, in units of 2^-1074, the
/// smallest double: with exponent field 0 the fraction itself, else the fraction with its
/// leading one, doubled for each step of the exponent.
pub open spec fn magnitude_units(m: nat) -> nat {
    let exponent = m / 0x10_0000_0000_0000;
    let fraction = m % 0x10_0000_0000_0000;
    if exponent == 0 {
        fraction
    } else {
        (0x10_0000_0000_0000 + fraction) * pow2((exponent - 1) as nat)
    }
}

/// The number that the bits of a double stand for, in units of 2^-1074; the first bit is the
/// sign.
pub open spec fn units(bits: nat) -> int {
    if bits >= 0x8000_0000_0000_0000 {
        -(magnitude_units((bits - 0x8000_0000_0000_0000) as nat) as int)
    } else {
        magnitude_units(bits) as int
    }
}

proof fn lemma_magnitude_grows(a: nat, b: nat)
    requires
        a < b,
    ensures
        magnitude_units(a) < magnitude_units(b),
{
    let one: nat = 0x10_0000_0000_0000;
    let ea = a / one;
    let eb = b / one;
    let fa = a % one;
    let fb = b % one;
    assert(a == ea * one + fa && b == eb * one + fb);
    assert(ea <= eb);
    if ea == eb {
        assert(fa < fb);
        if ea > 0 {
            let p = pow2((ea - 1) as nat);
            lemma_pow2_pos((ea - 1) as nat);
            assert((one + fa) * p < (one + fb) * p) by (nonlinear_arith)
                requires
                    fa < fb,
                    p > 0,
            ;
        }
    } else {
        let p = pow2((eb - 1) as nat);
        lemma_pow2_pos((eb - 1) as nat);
        assert(one * p <= (one + fb) * p) by (nonlinear_arith)
            requires
                p > 0,
                fb >= 0,
        ;
        if ea == 0 {
            assert(one <= one * p) by (nonlinear_arith)
                requires
                    p > 0,
                    one > 0,
            ;
        } else {
            let q = pow2((ea - 1) as nat);
            lemma_pow2_unfold(ea);
            lemma_pow2_pos((ea - 1) as nat);
            if ea < eb - 1 {
                lemma_pow2_strictly_increases(ea, (eb - 1) as nat);
            }
            assert(2 * q <= p);
            assert((one + fa) * q < one * (2 * q)) by (nonlinear_arith)
                requires
                    fa < one,
                    q > 0,
            ;
            assert(one * (2 * q) <= one * p) by (nonlinear_arith)
                requires
                    2 * q <= p,
                    one > 0,
            ;
        }
    }
}

/// Doubles are compared by the numbers that they stand for; what stands for no number is
/// neither below nor above nor equal to anything, itself included.
pub proof fn law_double_order(x: u64, y: u64)
    ensures
        ({
            let r = json::number_order(Number::Double(x), Number::Double(y));
            let no_number = x as nat % 0x8000_0000_0000_0000 > 0x7FF0_0000_0000_0000 || y as nat
                % 0x8000_0000_0000_0000 > 0x7FF0_0000_0000_0000;
            &&& r is None <==> no_number
            &&& r == Some(Order::Less) <==> !no_number && units(x as nat) < units(y as nat)
            &&& r == Some(Order::Equal) <==> !no_number && units(x as nat) == units(y as nat)
            &&& r == Some(Order::Greater) <==> !no_number && units(x as nat) > units(y as nat)
            &&& json::number_equal(Number::Double(x), Number::Double(y)) <==> !no_number && units(x as nat) == units(
                y as nat,
            )
        }),
{
    let sign: nat = 0x8000_0000_0000_0000;
    let a: nat = if x >= sign {
        (x - sign) as nat
    } else {
        x as nat
    };
    let b: nat = if y >= sign {
        (y - sign) as nat
    } else {
        y as nat
    };
    assert(magnitude_units(0) == 0);
    if a < b {
        lemma_magnitude_grows(a, b);
    }
    if b < a {
        lemma_magnitude_grows(b, a);
    }
    if a > 0 {
        lemma_magnitude_grows(0, a);
    }
    if b > 0 {
        lemma_magnitude_grows(0, b);
    }
}

proof fn lemma_split(e: nat, significand: nat)
    requires
        0x10_0000_0000_0000 <= significand <= 0x20_0000_0000_0000,
    ensures
        magnitude_units((e + 1022) * 0x10_0000_0000_0000 + significand) == significand * pow2(e + 1022),
{
    let one: nat = 0x10_0000_0000_0000;
    let m = (e + 1022) * one + significand;
    if significand < 2 * one {
        assert(m == (e + 1023) * one + (significand - one));
        assert(m / one == e + 1023);
        assert(m % one == significand - one);
    } else {
        assert(m == (e + 1024) * one);
        assert(m / one == e + 1024);
        assert(m % one == 0);
        lemma_pow2_unfold(e + 1023);
        let p = pow2(e + 1022);
        assert(one * (2 * p) == (2 * one) * p) by (nonlinear_arith);
    }
}

/// The double for an integer stands for the integer itself where it has no more than 53
/// binary digits, and else for one that is nearest: off by no more than its 2^53rd part.
pub proof fn law_double_of_integer(n: u64)
    ensures
        n <= 0x20_0000_0000_0000 ==> units(json::double_of_nat(n as nat)) == n * pow2(1074),
        0x20_0000_0000_0000 * (units(json::double_of_nat(n as nat)) - n * pow2(1074)) <= n * pow2(1074),
        0x20_0000_0000_0000 * (n * pow2(1074) - units(json::double_of_nat(n as nat))) <= n * pow2(1074),
        json::double_of_nat(n as nat) < 0x7FF0_0000_0000_0000,
{
    let one: nat = 0x10_0000_0000_0000;
    let e = json::floor_log2(n as nat);
    if n == 0 {
        assert(units(0) == 0);
        assert(0 * pow2(1074) == 0);
    } else {
        json::lemma_floor_log2(n as nat);
        lemma2_to64();
        lemma2_to64_rest();
        if e > 63 {
            if e > 64 {
                lemma_pow2_strictly_increases(64, e);
            }
            assert(false);
        }
        if e <= 52 {
            let p = pow2((52 - e) as nat);
            lemma_pow2_adds(e, (52 - e) as nat);
            lemma_pow2_adds(e + 1, (52 - e) as nat);
            lemma_pow2_pos((52 - e) as nat);
            assert(pow2(e) * p <= n * p && n * p < pow2(e + 1) * p) by (nonlinear_arith)
                requires
                    pow2(e) <= n < pow2(e + 1),
                    p > 0,
            ;
            lemma_split(e, n as nat * p);
            lemma_pow2_adds((52 - e) as nat, e + 1022);
            let q = pow2(e + 1022);
            assert((n * p) * q == n * (p * q)) by (nonlinear_arith);
            assert(n * pow2(1074) >= 0) by (nonlinear_arith);
        } else {
            let unit = pow2((e - 52) as nat);
            let q = n as nat / unit;
            let rem = n as nat % unit;
            lemma_pow2_adds((e - 52) as nat, 52);
            lemma_pow2_adds((e - 52) as nat, 53);
            lemma_pow2_pos((e - 52) as nat);
            assert(n == q * unit + rem && rem < unit) by (nonlinear_arith)
                requires
                    q == n as nat / unit,
                    rem == n as nat % unit,
                    unit > 0,
            ;
            assert(pow2(52) <= q < pow2(53)) by (nonlinear_arith)
                requires
                    n == q * unit + rem,
                    rem < unit,
                    unit * pow2(52) <= n < unit * pow2(53),
                    unit > 0,
            ;
            let rounded: nat = if 2 * rem > unit || (2 * rem == unit && q % 2 == 1) {
                q + 1
            } else {
                q
            };
            lemma_split(e, rounded);
            let base = pow2(1074);
            lemma_pow2_adds((e - 52) as nat, 1074);
            assert(units(json::double_of_nat(n as nat)) == rounded * (unit * base));
            assert(rounded * (unit * base) == (rounded * unit) * base) by (nonlinear_arith);
            let off: int = rounded * unit - n;
            assert(-unit <= 2 * off <= unit) by (nonlinear_arith)
                requires
                    off == rounded * unit - n,
                    n == q * unit + rem,
                    rem < unit,
                    rounded == (if 2 * rem > unit || (2 * rem == unit && q % 2 == 1) {
                        q + 1
                    } else {
                        q
                    }),
            ;
            assert(one * unit <= n);
            lemma_pow2_pos(1074);
            assert(0x20_0000_0000_0000 * off <= n && 0x20_0000_0000_0000 * (-off) <= n);
            assert((rounded * unit) * base - n * base == off * base) by (nonlinear_arith)
                requires
                    off == rounded * unit - n,
            ;
            assert(0x20_0000_0000_0000 * (off * base) <= n * base) by (nonlinear_arith)
                requires
                    0x20_0000_0000_0000 * off <= n,
                    base > 0,
            ;
            assert(0x20_0000_0000_0000 * ((-off) * base) <= n * base) by (nonlinear_arith)
                requires
                    0x20_0000_0000_0000 * (-off) <= n,
                    base > 0,
            ;
            assert((-off) * base == -(off * base)) by (nonlinear_arith);
            if n <= 0x20_0000_0000_0000 {
                assert(n == 0x20_0000_0000_0000);
                assert(e == 53);
                assert(unit == 2);
                assert(rem == 0);
                assert(rounded * unit == n);
            }
        }
    }
}

} // verus!
