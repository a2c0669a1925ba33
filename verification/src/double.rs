//! Numbers as double-precision arithmetic has them, in whole numbers: which of
//! them a quotient comes out as.

use vstd::arithmetic::div_mod::*;
use vstd::prelude::*;

verus! {

/// `n` over `d` to the nearest whole number, a tie going to the even one.
pub open spec fn nearest(n: nat, d: nat) -> nat
    recommends
        d > 0,
{
    let q = n / d;
    let r = n % d;
    if 2 * r < d || (2 * r == d && q % 2 == 0) {
        q
    } else {
        q + 1
    }
}

/// The gap between neighbouring double-precision numbers of the size of `n`,
/// for a whole `n`: one as far as whole numbers are exact.
pub open spec fn gap(n: nat) -> nat
    decreases n,
{
    if n < 0x20_0000_0000_0000 {
        1
    } else {
        2 * gap(n / 2)
    }
}

/// `n` as a double-precision number.
pub open spec fn as_double(n: nat) -> nat {
    nearest(n, gap(n)) * gap(n)
}

/// The power of two by which a double-precision quotient of `n` and `d` is
/// finer than whole numbers.
pub open spec fn fineness(n: nat, d: nat) -> nat
    decreases
            (if n >= 0x10_0000_0000_0000 * d {
                0
            } else {
                0x10_0000_0000_0000 * d - n
            }),
{
    if n == 0 || n >= 0x10_0000_0000_0000 * d {
        1
    } else {
        2 * fineness(2 * n, d)
    }
}

pub(crate) fn nearest_of(n: u128, d: u128) -> (r: u128)
    requires
        0 < d < 0x1_0000_0000_0000_0000_0000,
        n < u128::MAX,
    ensures
        r == nearest(n as nat, d as nat),
        r <= n / d + 1,
{
    let q: u128 = n / d;
    let r: u128 = n % d;
    if 2 * r < d || (2 * r == d && q % 2 == 0) {
        q
    } else {
        q + 1
    }
}

pub(crate) fn gap_of(n: u64) -> (r: u128)
    ensures
        r == gap(n as nat),
        n < 0x20_0000_0000_0000 ==> r == 1,
        0 < r <= 4096,
        r == 1 || r * 0x10_0000_0000_0000 <= n,
    decreases n,
{
    if n < 0x20_0000_0000_0000 {
        1
    } else {
        2 * gap_of(n / 2)
    }
}

pub(crate) fn double_of(n: u64) -> (r: u128)
    ensures
        r == as_double(n as nat),
        n < 0x20_0000_0000_0000 ==> r == n,
        n >= 0x20_0000_0000_0000 ==> 0x10_0000_0000_0000 <= r,
        r <= 0x2_0000_0000_0000_0000,
{
    let g: u128 = gap_of(n);
    let near: u128 = nearest_of(n as u128, g);
    proof {
        let m = n as int;
        let k = g as int;
        let q = m / k;
        assert(q * k <= m && (q >= 0) && (k > 1 ==> q >= 0x10_0000_0000_0000)) by (nonlinear_arith)
            requires
                q == m / k,
                m >= 0,
                k > 0,
                k > 1 ==> k * 0x10_0000_0000_0000 <= m,
        ;
        let x = near as int;
        assert(x * k <= m + k && x * k >= x) by (nonlinear_arith)
            requires
                q * k <= m,
                0 <= x <= q + 1,
                k > 0,
        ;
        assert(m / 1 == m && m % 1 == 0);
        assert(x * 1 == x) by (nonlinear_arith);
    }
    near * g
}

// ── Facts ────────────────────────────────────────────────────────────

/// The nearest whole number is off by half the divisor at most.
pub proof fn lemma_nearest(n: nat, d: nat)
    requires
        d > 0,
    ensures
        2 * n - d <= 2 * (nearest(n, d) * d) <= 2 * n + d,
        n / d <= nearest(n, d) <= n / d + 1,
        nearest(n, d) <= n + 1,
{
    let q = (n / d) as int;
    let r = (n % d) as int;
    let e = d as int;
    lemma_fundamental_div_mod(n as int, e);
    lemma_mod_bound(n as int, e);
    assert(e * q == q * e && (q + 1) * e == q * e + e) by (nonlinear_arith);
    assert(q <= n) by (nonlinear_arith)
        requires
            e * q <= n,
            e >= 1,
            q >= 0,
    ;
}

/// A whole number that is off by less than half the divisor is the nearest.
pub proof fn lemma_nearest_is(n: nat, d: nat, k: nat)
    requires
        2 * n - d < 2 * (k * d) < 2 * n + d,
    ensures
        nearest(n, d) == k,
{
    let e = d as int;
    let x = k as int;
    if k * d <= n {
        assert(n == x * e + (n - x * e));
        lemma_fundamental_div_mod_converse(n as int, e, x, n - x * e);
    } else {
        assert((x - 1) * e == x * e - e) by (nonlinear_arith);
        assert(x >= 1) by (nonlinear_arith)
            requires
                x * e > 0,
                x >= 0,
        ;
        lemma_fundamental_div_mod_converse(n as int, e, x - 1, n - (x - 1) * e);
    }
}

pub proof fn lemma_gap(n: nat)
    ensures
        gap(n) >= 1,
        n >= 0x20_0000_0000_0000 ==> gap(n) >= 2 && gap(n) * 0x10_0000_0000_0000 <= n,
    decreases n,
{
    if n >= 0x20_0000_0000_0000 {
        lemma_gap(n / 2);
    }
}

/// A quotient that is made finer by its fineness has 53 binary digits.
pub proof fn lemma_fineness(n: nat, d: nat)
    requires
        n > 0,
        d > 0,
    ensures
        fineness(n, d) >= 1,
        n >= 0x10_0000_0000_0000 * d ==> fineness(n, d) == 1,
        n < 0x10_0000_0000_0000 * d ==> 0x10_0000_0000_0000 * d <= n * fineness(n, d)
            < 0x20_0000_0000_0000 * d,
    decreases
            (if n >= 0x10_0000_0000_0000 * d {
                0
            } else {
                0x10_0000_0000_0000 * d - n
            }),
{
    if n < 0x10_0000_0000_0000 * d {
        lemma_fineness(2 * n, d);
        let m = n as int;
        let f = fineness(2 * n, d) as int;
        assert(m * (2 * f) == (2 * m) * f) by (nonlinear_arith);
        assert((2 * m) * 1 == 2 * m) by (nonlinear_arith);
    }
}

/// Whole numbers are exact up to two to the power of fifty-three, and beyond
/// that the nearest that there is, by less than its own gap.
pub proof fn law_whole_numbers_are_exact_as_far_as_they_go(n: nat)
    ensures
        n < 0x20_0000_0000_0000 ==> as_double(n) == n,
        2 * n - gap(n) <= 2 * as_double(n) <= 2 * n + gap(n),
{
    lemma_gap(n);
    lemma_nearest(n, gap(n));
    if n < 0x20_0000_0000_0000 {
        lemma_nearest_is(n, 1, n);
    }
}

/// Rounding goes to the nearest whole number, and from the middle to the even
/// one.
pub proof fn law_the_nearest_is_the_nearest(n: nat, d: nat, other: nat)
    requires
        d > 0,
    ensures
        ({
            let here = if nearest(n, d) * d >= n {
                nearest(n, d) * d - n
            } else {
                n - nearest(n, d) * d
            };
            let there = if other * d >= n {
                other * d - n
            } else {
                n - other * d
            };
            here <= there && (here == there && other != nearest(n, d) ==> nearest(n, d) % 2 == 0)
        }),
{
    let e = d as int;
    let q = (n / d) as int;
    let o = other as int;
    lemma_fundamental_div_mod(n as int, e);
    lemma_mod_bound(n as int, e);
    assert(e * q == q * e && (q + 1) * e == q * e + e) by (nonlinear_arith);
    assert(o < q ==> o * e <= q * e - e) by (nonlinear_arith)
        requires
            e > 0,
    ;
    assert(o > q + 1 ==> o * e >= q * e + 2 * e) by (nonlinear_arith)
        requires
            e > 0,
    ;
}

} // verus!
