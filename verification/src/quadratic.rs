//! The real roots of a quadratic equation with fixed-point coefficients, each
//! rounded down to the grid.

use crate::fixed::{lemma_quotient_is, mul_div_rem, wide_product, SCALE};
use vstd::arithmetic::div_mod::*;
use vstd::prelude::*;

verus! {

/// Whether `s` is the square root of `n`, rounded down.
pub open spec fn is_root_floor(n: int, s: int) -> bool {
    0 <= s && s * s <= n < (s + 1) * (s + 1)
}

/// The square root of `n`, rounded down.
pub open spec fn root_floor(n: int) -> int {
    choose|s: int| is_root_floor(n, s)
}

/// The square root of `n`, rounded up.
pub open spec fn root_ceiling(n: int) -> int {
    if root_floor(n) * root_floor(n) == n {
        root_floor(n)
    } else {
        root_floor(n) + 1
    }
}

/// A number has one square root rounded down, and no other.
pub proof fn lemma_root_floor_is(n: int, s: int)
    requires
        is_root_floor(n, s),
    ensures
        root_floor(n) == s,
{
    let t = root_floor(n);
    assert(t == s) by (nonlinear_arith)
        requires
            0 <= s,
            s * s <= n < (s + 1) * (s + 1),
            0 <= t,
            t * t <= n < (t + 1) * (t + 1),
    ;
}

/// Every number from 0 up has a square root rounded down.
pub proof fn lemma_root_exists(n: int)
    requires
        n >= 0,
    ensures
        exists|s: int| is_root_floor(n, s),
    decreases n,
{
    if n == 0 {
        assert(is_root_floor(0, 0));
    } else {
        lemma_root_exists(n - 1);
        let s = root_floor(n - 1);
        if (s + 1) * (s + 1) <= n {
            assert(is_root_floor(n, s + 1)) by (nonlinear_arith)
                requires
                    0 <= s,
                    s * s <= n - 1 < (s + 1) * (s + 1),
                    (s + 1) * (s + 1) <= n,
            ;
        } else {
            assert(is_root_floor(n, s));
        }
    }
}

/// The discriminant `b * b - 4 * a * c` of a quadratic equation.
pub open spec fn discriminant(a: int, b: int, c: int) -> int {
    b * b - 4 * (a * c)
}

/// The discriminant of an equation whose roots are counted in units of the
/// grid: with coefficients and roots both in millionths, the root of the
/// discriminant is taken a million times finer.
pub open spec fn scaled_discriminant(a: int, b: int, c: int) -> int {
    discriminant(a, b, c) * 1_000_000_000_000
}

/// The roots of `a * x * x + b * x + c == 0` over fixed-point numbers, each
/// the real root rounded down to the grid: for a quadratic equation
/// `(-b + sqrt(d)) / (2 * a)` and `(-b - sqrt(d)) / (2 * a)`, in that order,
/// with `d` the discriminant; for a linear one `-c / b` and 0; and `(0, 0)`
/// where there is no real root or no equation. Every quotient is written with
/// a divisor above 0, so that it rounds down.
pub open spec fn quadratic_roots(a: int, b: int, c: int) -> (int, int) {
    if a == 0 {
        if b > 0 {
            ((-c * SCALE) / b, 0)
        } else if b < 0 {
            ((c * SCALE) / (-b), 0)
        } else {
            (0, 0)
        }
    } else if discriminant(a, b, c) < 0 {
        (0, 0)
    } else {
        let lower = root_floor(scaled_discriminant(a, b, c));
        let upper = root_ceiling(scaled_discriminant(a, b, c));
        if a > 0 {
            ((-b * SCALE + lower) / (2 * a), (-b * SCALE - upper) / (2 * a))
        } else {
            ((b * SCALE - upper) / (-2 * a), (b * SCALE + lower) / (-2 * a))
        }
    }
}

/// The square root, rounded down, of `(4 * quarter + rest) * 10^12`, which
/// may be wider than 128 bits, and whether that root is exact.
fn scaled_root(quarter: u128, rest: u128) -> (r: (u128, bool))
    requires
        quarter < 0x8000_0000_0000_0000_0000_0000_0000_0000,
        rest <= 1,
    ensures
        is_root_floor((4 * quarter + rest) * 1_000_000_000_000, r.0 as int),
        r.1 == (r.0 * r.0 == (4 * quarter + rest) * 1_000_000_000_000),
        r.0 < 36893488147419103232000000,
{
    let ghost target: int = (4 * quarter + rest) * 1_000_000_000_000;
    let mut low: u128 = 0;
    let mut high: u128 = 36893488147419103232000000;
    assert(36893488147419103232000000int * 36893488147419103232000000int
        == 0x1_0000_0000_0000_0000_0000_0000_0000_0000int * 4_000_000_000_000);
    while high - low > 1
        invariant
            0 <= low < high <= 36893488147419103232000000,
            low * low <= target < high * high,
            target == quarter * 4_000_000_000_000 + rest * 1_000_000_000_000,
            quarter < 0x8000_0000_0000_0000_0000_0000_0000_0000,
            rest <= 1,
        decreases high - low,
    {
        let mid: u128 = low + (high - low) / 2;
        proof {
            lemma_fundamental_div_mod(mid * mid, 4_000_000_000_000);
            lemma_mod_bound(mid * mid, 4_000_000_000_000);
        }
        let fits: bool = match mul_div_rem(mid, mid, 4_000_000_000_000) {
            Some((q, r)) => q < quarter || (q == quarter && r <= rest * 1_000_000_000_000),
            None => false,
        };
        if fits {
            low = mid;
        } else {
            high = mid;
        }
    }
    proof {
        lemma_fundamental_div_mod(low * low, 4_000_000_000_000);
        lemma_mod_bound(low * low, 4_000_000_000_000);
    }
    let exact: bool = match mul_div_rem(low, low, 4_000_000_000_000) {
        Some((q, r)) => q == quarter && r == rest * 1_000_000_000_000,
        None => false,
    };
    (low, exact)
}

/// The size of a signed number.
fn magnitude(x: i64) -> (r: u64)
    ensures
        r == if x >= 0 {
            x as int
        } else {
            -(x as int)
        },
{
    if x >= 0 {
        x as u64
    } else {
        (-(x as i128)) as u64
    }
}

/// The quotient of a signed number by one above 0, rounded down.
fn divide_rounding_down(n: i128, d: i128) -> (r: i128)
    requires
        d > 0,
        -0x4000_0000_0000_0000_0000_0000_0000_0000 < n < 0x4000_0000_0000_0000_0000_0000_0000_0000,
        d < 0x4000_0000_0000_0000_0000_0000_0000_0000,
    ensures
        r == (n as int) / (d as int),
{
    if n >= 0 {
        ((n as u128) / (d as u128)) as i128
    } else {
        let size: u128 = (-n) as u128;
        let step: u128 = d as u128;
        let up: u128 = (size + step - 1) / step;
        proof {
            let left = (size + step - 1) % (step as int);
            lemma_fundamental_div_mod(size + step - 1, step as int);
            lemma_mod_bound(size + step - 1, step as int);
            assert((-up) * step == -(step * up)) by (nonlinear_arith);
            lemma_quotient_is(n as int, d as int, -(up as int), step - 1 - left);
        }
        -(up as i128)
    }
}

/// The square of a number counts its quarters and its parity apart.
proof fn lemma_square_quarters(b: int, size: int)
    requires
        size == if b >= 0 {
            b
        } else {
            -b
        },
    ensures
        size * size == b * b,
        b * b == 4 * ((size * size) / 4) + (size % 2),
{
    assert(size * size == b * b) by (nonlinear_arith)
        requires
            size == b || size == -b,
    ;
    let k = size / 2;
    let e = size % 2;
    assert(size * size == 4 * (k * k + k * e) + e) by (nonlinear_arith)
        requires
            size == 2 * k + e,
            e == 0 || e == 1,
    ;
}

/// The sign and size of a product from those of its factors.
proof fn lemma_product_sign(a: int, c: int, a_size: int, c_size: int)
    requires
        a_size == if a >= 0 {
            a
        } else {
            -a
        },
        c_size == if c >= 0 {
            c
        } else {
            -c
        },
    ensures
        a * c == if (a >= 0) == (c >= 0) {
            a_size * c_size
        } else {
            -(a_size * c_size)
        },
{
    assert(a * c == if (a >= 0) == (c >= 0) {
        a_size * c_size
    } else {
        -(a_size * c_size)
    }) by (nonlinear_arith)
        requires
            a_size == a || a_size == -a,
            c_size == c || c_size == -c,
            (a >= 0) ==> a_size == a,
            (a < 0) ==> a_size == -a,
            (c >= 0) ==> c_size == c,
            (c < 0) ==> c_size == -c,
    ;
}

/// Solves `a * x * x + b * x + c == 0`. Returns both real roots, or the one
/// root and 0 where the equation is linear, or `(0, 0)` where it has no real
/// root; each root is rounded down to the grid.
pub fn solve_quadratic(a: i64, b: i64, c: i64) -> (r: (i128, i128))
    ensures
        (r.0 as int, r.1 as int) == quadratic_roots(a as int, b as int, c as int),
{
    if a == 0 {
        if b > 0 {
            return (divide_rounding_down(-(c as i128) * 1_000_000, b as i128), 0);
        } else if b < 0 {
            return (divide_rounding_down((c as i128) * 1_000_000, -(b as i128)), 0);
        }
        return (0, 0);
    }
    let a_size: u64 = magnitude(a);
    let b_size: u64 = magnitude(b);
    let c_size: u64 = magnitude(c);
    let square: u128 = wide_product(b_size, b_size);
    let product: u128 = wide_product(a_size, c_size);
    let rest: u128 = (b_size % 2) as u128;
    proof {
        lemma_square_quarters(b as int, b_size as int);
        lemma_product_sign(a as int, c as int, a_size as int, c_size as int);
        assert(a_size * c_size <= 0x8000_0000_0000_0000int * 0x8000_0000_0000_0000int)
            by (nonlinear_arith)
            requires
                0 <= a_size <= 0x8000_0000_0000_0000,
                0 <= c_size <= 0x8000_0000_0000_0000,
        ;
        assert(b_size * b_size <= 0x8000_0000_0000_0000int * 0x8000_0000_0000_0000int)
            by (nonlinear_arith)
            requires
                0 <= b_size <= 0x8000_0000_0000_0000,
        ;
        assert(0x8000_0000_0000_0000int * 0x8000_0000_0000_0000int
            == 0x4000_0000_0000_0000_0000_0000_0000_0000int);
    }
    let same_sign: bool = (a >= 0) == (c >= 0);
    let quarter: i128 = if same_sign {
        (square / 4) as i128 - product as i128
    } else {
        (square / 4) as i128 + product as i128
    };
    if quarter < 0 {
        return (0, 0);
    }
    let (lower, exact) = scaled_root(quarter as u128, rest);
    let upper: u128 = if exact {
        lower
    } else {
        lower + 1
    };
    proof {
        lemma_root_floor_is(scaled_discriminant(a as int, b as int, c as int), lower as int);
    }
    let shifted: i128 = (b as i128) * 1_000_000;
    if a > 0 {
        let twice: i128 = 2 * (a as i128);
        (
            divide_rounding_down(-shifted + lower as i128, twice),
            divide_rounding_down(-shifted - upper as i128, twice),
        )
    } else {
        let twice: i128 = -2 * (a as i128);
        (
            divide_rounding_down(shifted - upper as i128, twice),
            divide_rounding_down(shifted + lower as i128, twice),
        )
    }
}

} // verus!
