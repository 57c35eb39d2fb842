//! Fixed-point amounts. Money, prices and percentages are kept in
//! hundredths; a decimal number arrives as an integer mantissa and the
//! number of its decimal places.

use vstd::prelude::*;

verus! {

/// The number of decimal places of an amount.
pub const AMOUNT_SCALE: u32 = 2;

/// Ten to the power of `n`.
pub open spec fn pow10(n: nat) -> nat
    decreases n,
{
    if n == 0 {
        1
    } else {
        10 * pow10((n - 1) as nat)
    }
}

/// Whether `amount` hundredths are the number `mantissa / 10^scale`.
pub open spec fn same_value(amount: int, mantissa: int, scale: nat) -> bool {
    amount * pow10(scale) == mantissa * 100
}

/// Powers of ten are positive and multiply as their exponents add.
pub proof fn lemma_pow10(a: nat, b: nat)
    ensures
        pow10(a) > 0,
        pow10(a + b) == pow10(a) * pow10(b),
    decreases a,
{
    if a == 0 {
        assert(pow10(0 + b) == 1 * pow10(b));
    } else {
        lemma_pow10((a - 1) as nat, b);
        let x = pow10((a - 1) as nat);
        let y = pow10(b);
        assert(10 * (x * y) == (10 * x) * y) by (nonlinear_arith);
    }
}

/// An amount is determined by the number it writes.
pub proof fn lemma_same_value_unique(a: int, b: int, mantissa: int, scale: nat)
    requires
        same_value(a, mantissa, scale),
        same_value(b, mantissa, scale),
    ensures
        a == b,
{
    lemma_pow10(scale, 0);
    let p = pow10(scale) as int;
    assert(a == b) by (nonlinear_arith)
        requires
            a * p == b * p,
            p > 0,
    ;
}

/// The hundredths that write the decimal number `mantissa / 10^scale`, or
/// `None` where the number has a digit beyond the hundredths or lies
/// outside the range of amounts. Nothing is rounded.
pub fn from_decimal_parts(mantissa: i128, scale: u32) -> (r: Option<i64>)
    ensures
        match r {
            Some(a) => same_value(a as int, mantissa as int, scale as nat),
            None => forall|a: i64| !same_value(a as int, mantissa as int, scale as nat),
        },
{
    let negative = mantissa < 0;
    let mut mag: u128 = if negative {
        (-(mantissa + 1)) as u128 + 1
    } else {
        mantissa as u128
    };
    let ghost sign: int = if negative {
        -1
    } else {
        1
    };
    let mut s: u32 = scale;
    proof {
        let m = mag as int;
        assert(sign * m == mantissa) by (nonlinear_arith)
            requires
                (sign == 1 && m == mantissa) || (sign == -1 && m == -mantissa),
        ;
        assert(sign * m * 1 == sign * m) by (nonlinear_arith);
    }
    while s > 2
        invariant
            s <= scale,
            sign == 1 || sign == -1,
            sign == -1 <==> negative,
            sign * mag * pow10((scale - s) as nat) == mantissa,
        decreases s,
    {
        let ghost done = pow10((scale - s) as nat) as int;
        if mag % 10 != 0 {
            proof {
                let rest = pow10((s - 3) as nat) as int;
                lemma_pow10(3, (s - 3) as nat);
                lemma_pow10((scale - s) as nat, s as nat);
                assert(pow10(3) == 1000) by {
                    reveal_with_fuel(pow10, 4);
                }
                assert forall|a: i64| !same_value(a as int, mantissa as int, scale as nat) by {
                    if same_value(a as int, mantissa as int, scale as nat) {
                        let m = mag as int;
                        assert(a * (1000 * rest) * done == sign * m * done * 100)
                            by (nonlinear_arith)
                            requires
                                a * (done * (1000 * rest)) == (sign * m * done) * 100,
                        ;
                        assert(a * (1000 * rest) == sign * m * 100) by (nonlinear_arith)
                            requires
                                a * (1000 * rest) * done == sign * m * done * 100,
                                done > 0,
                        ;
                        assert(10 * (a * rest) == sign * m) by (nonlinear_arith)
                            requires
                                a * (1000 * rest) == sign * m * 100,
                        ;
                        let k = a * rest;
                        assert(m == 10 * (sign * k)) by (nonlinear_arith)
                            requires
                                10 * k == sign * m,
                                sign == 1 || sign == -1,
                        ;
                    }
                }
            }
            return None;
        }
        proof {
            let q = (mag / 10) as int;
            assert(pow10(1) == 10) by {
                reveal_with_fuel(pow10, 2);
            }
            assert(sign * q * (10 * done) == sign * (10 * q) * done) by (nonlinear_arith);
        }
        mag = mag / 10;
        s = s - 1;
    }
    let factor: u128 = if s == 2 {
        1
    } else if s == 1 {
        10
    } else {
        100
    };
    proof {
        let done = pow10((scale - s) as nat) as int;
        let left = pow10(s as nat) as int;
        lemma_pow10((scale - s) as nat, s as nat);
        assert(left * factor == 100) by {
            reveal_with_fuel(pow10, 3);
        }
        let m = mag as int;
        let exact = sign * m * factor;
        assert(same_value(exact, mantissa as int, scale as nat)) by (nonlinear_arith)
            requires
                exact == sign * m * factor,
                left * factor == 100,
                sign * m * done == mantissa,
                pow10(scale as nat) == done * left,
        ;
        assert forall|a: i64| same_value(a as int, mantissa as int, scale as nat) implies a
            == exact by {
            lemma_same_value_unique(a as int, exact, mantissa as int, scale as nat);
        }
        assert(m * factor >= 0) by (nonlinear_arith)
            requires
                m >= 0,
                factor >= 1,
        ;
        assert(negative ==> exact == -(m * factor)) by (nonlinear_arith)
            requires
                exact == sign * m * factor,
                sign == -1 <==> negative,
                sign == 1 || sign == -1,
        ;
        assert(!negative ==> exact == m * factor) by (nonlinear_arith)
            requires
                exact == sign * m * factor,
                sign == -1 <==> negative,
                sign == 1 || sign == -1,
        ;
    }
    let scaled = match mag.checked_mul(factor) {
        Some(v) => v,
        None => { return None; },
    };
    if negative {
        if scaled > 0x8000_0000_0000_0000 {
            None
        } else if scaled == 0x8000_0000_0000_0000 {
            Some(i64::MIN)
        } else {
            Some(-(scaled as i64))
        }
    } else {
        if scaled > 0x7fff_ffff_ffff_ffff {
            None
        } else {
            Some(scaled as i64)
        }
    }
}

/// The mantissa and the decimal places that write an amount.
pub fn to_decimal_parts(amount: i64) -> (r: (i128, u32))
    ensures
        r.1 == AMOUNT_SCALE,
        same_value(amount as int, r.0 as int, r.1 as nat),
{
    proof {
        assert(pow10(2) == 100) by {
            reveal_with_fuel(pow10, 3);
        }
    }
    (amount as i128, AMOUNT_SCALE)
}

} // verus!
