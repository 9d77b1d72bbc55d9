//! Integer square root by Newton iteration.

use vstd::prelude::*;

verus! {

/// Whether `r` is the floor of the square root of `v`.
pub open spec fn spec_is_floor_sqrt(v: int, r: int) -> bool {
    &&& r * r <= v
    &&& (r + 1) * (r + 1) > v
}

/// One Newton step from guess `g` lands at or above the floor square root:
/// `(g + v/g) / 2` rounds down to at least `floor(sqrt(v))`.
proof fn lemma_newton_step_above(v: int, g: int, f: int)
    requires
        v >= 0,
        g >= 1,
        f == (g + v / g) / 2,
    ensures
        (f + 1) * (f + 1) > v,
{
    let q = v / g;
    vstd::arithmetic::div_mod::lemma_fundamental_div_mod(v, g);
    vstd::arithmetic::div_mod::lemma_mod_bound(v, g);
    assert(v == g * q + v % g);
    assert(v < (q + 1) * g) by (nonlinear_arith)
        requires
            v == g * q + v % g && v % g < g,
    ;
    assert(q >= 0) by (nonlinear_arith)
        requires
            v >= 0 && g >= 1 && v == g * q + v % g && 0 <= v % g < g,
    ;
    assert(g + q <= 2 * f + 1);
    if (f + 1) * (f + 1) <= v {
        // AM-GM: 4 * (q+1) * g <= ((q+1) + g)^2, and (q+1) + g <= 2 * (f+1)
        assert(4 * ((q + 1) * g) <= ((q + 1) + g) * ((q + 1) + g)) by (nonlinear_arith);
        assert(((q + 1) + g) * ((q + 1) + g) <= (2 * (f + 1)) * (2 * (f + 1))) by (nonlinear_arith)
            requires
                0 <= (q + 1) + g <= 2 * (f + 1),
        ;
        assert(4 * ((q + 1) * g) <= 4 * ((f + 1) * (f + 1))) by (nonlinear_arith)
            requires
                4 * ((q + 1) * g) <= (2 * (f + 1)) * (2 * (f + 1)),
        ;
        assert(v < (f + 1) * (f + 1));
        assert(false);
    }
}

/// At a fixed point of the Newton step, the guess is at most the square root:
/// if `(g + v/g) / 2 >= g` then `g * g <= v`.
proof fn lemma_newton_fixed_point(v: int, g: int, f: int)
    requires
        v >= 0,
        g >= 1,
        f == (g + v / g) / 2,
        f >= g,
    ensures
        g * g <= v,
{
    let q = v / g;
    assert(g + q >= 2 * f);
    assert(q >= g);
    assert(v >= q * g) by (nonlinear_arith)
        requires
            v >= 0 && g >= 1 && q == v / g,
    ;
    assert(q * g >= g * g) by (nonlinear_arith)
        requires
            q >= g && g >= 1,
    ;
}

/// The floor of the square root of a non-negative integer, defined by
/// counting up.
pub open spec fn spec_sqrt(v: int) -> int
    decreases v,
{
    if v <= 0 {
        0
    } else {
        let s = spec_sqrt(v - 1);
        if (s + 1) * (s + 1) <= v {
            s + 1
        } else {
            s
        }
    }
}

/// `spec_sqrt` satisfies the floor-square-root bracket.
pub proof fn lemma_spec_sqrt_is_floor(v: int)
    requires
        v >= 0,
    ensures
        spec_is_floor_sqrt(v, spec_sqrt(v)),
        spec_sqrt(v) >= 0,
    decreases v,
{
    if v > 0 {
        lemma_spec_sqrt_is_floor(v - 1);
        let s = spec_sqrt(v - 1);
        if (s + 1) * (s + 1) <= v {
            assert(v == (s + 1) * (s + 1));
            assert((s + 1) * (s + 1) < (s + 2) * (s + 2)) by (nonlinear_arith)
                requires
                    s >= 0,
            ;
        }
    }
}

/// Two values satisfying the floor-square-root bracket of `v` are equal.
pub proof fn lemma_floor_sqrt_unique(v: int, a: int, b: int)
    requires
        a >= 0,
        b >= 0,
        spec_is_floor_sqrt(v, a),
        spec_is_floor_sqrt(v, b),
    ensures
        a == b,
{
    if a < b {
        assert((a + 1) * (a + 1) <= b * b) by (nonlinear_arith)
            requires
                0 <= a < b,
        ;
    }
    if b < a {
        assert((b + 1) * (b + 1) <= a * a) by (nonlinear_arith)
            requires
                0 <= b < a,
        ;
    }
}

/// The floor square root of a 128-bit value fits in 64 bits.
pub proof fn lemma_sqrt_bound(v: int)
    requires
        0 <= v <= u128::MAX,
    ensures
        0 <= spec_sqrt(v) < 0x1_0000_0000_0000_0000,
{
    lemma_spec_sqrt_is_floor(v);
    let s = spec_sqrt(v);
    if s >= 0x1_0000_0000_0000_0000 {
        assert(s * s > u128::MAX) by (nonlinear_arith)
            requires
                s >= 0x1_0000_0000_0000_0000,
        ;
        assert(false);
    }
}

/// The floor of the square root of `v`, computed by Newton iteration from
/// the initial guess `ceil(v / 2)`.
pub fn integer_sqrt(value: u128) -> (res: u128)
    ensures
        spec_is_floor_sqrt(value as int, res as int),
        res as int == spec_sqrt(value as int),
{
    proof {
        lemma_spec_sqrt_is_floor(value as int);
    }
    let mut guess: u128 = value / 2 + value % 2;
    let mut res: u128 = value;
    proof {
        vstd::arithmetic::div_mod::lemma_fundamental_div_mod(value as int, 2);
        vstd::arithmetic::div_mod::lemma_mod_bound(value as int, 2);
        assert(2 * (guess as int) >= value as int);
        assert((guess as int + 1) * (guess as int + 1) > value as int) by (nonlinear_arith)
            requires
                guess as int >= 0 && value as int >= 0 && 2 * (guess as int) >= value as int,
        ;
        assert((res as int + 1) * (res as int + 1) > value as int) by (nonlinear_arith)
            requires
                res == value && value as int >= 0,
        ;
        if guess >= res {
            assert(value <= 1);
            assert(value == 0 || value == 1);
            assert((res as int) * (res as int) <= value as int);
        }
    }
    while guess < res
        invariant
            value > 0 ==> guess >= 1,
            value == 0 ==> res == 0,
            guess as int <= (value as int) / 2 + 1,
            (res as int + 1) * (res as int + 1) > value as int,
            (guess as int + 1) * (guess as int + 1) > value as int,
            guess >= res ==> (res as int) * (res as int) <= value as int,
        decreases res,
    {
        res = guess;
        let ghost g: int = res as int;
        proof {
            // value / res + res does not overflow u128
            if res < 0x1_0000_0000_0000_0000 {
                assert((value as int) / g <= g + 2) by (nonlinear_arith)
                    requires
                        g >= 1 && value as int >= 0 && (value as int) < (g + 1) * (g + 1),
                ;
            } else {
                assert((value as int) / g < 0x1_0000_0000_0000_0000) by (nonlinear_arith)
                    requires
                        g >= 0x1_0000_0000_0000_0000 && 0 <= value as int <= u128::MAX,
                ;
            }
        }
        let next: u128 = (value / res + res) / 2;
        proof {
            lemma_newton_step_above(value as int, g, next as int);
            if next >= res {
                lemma_newton_fixed_point(value as int, g, next as int);
            }
            // the next guess stays at or below value / 2 + 1
            if g == 1 {
                assert(next as int <= (value as int) / 2 + 1);
            } else {
                assert((value as int) / g <= (value as int) / 2) by (nonlinear_arith)
                    requires
                        g >= 2 && value as int >= 0,
                ;
            }
        }
        guess = next;
    }
    proof {
        lemma_floor_sqrt_unique(value as int, res as int, spec_sqrt(value as int));
    }
    res
}

} // verus!
