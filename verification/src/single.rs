//! Single-precision rounding, carried out on integers.
//!
//! A quantity is measured in ticks, whose size the caller picks. Rounding keeps the leading
//! twenty-four significant binary digits and breaks ties towards the even significand, which is
//! what IEEE 754 binary32 arithmetic does after every operation. As long as a tick is no coarser
//! than the spacing of the binary32 numbers around the quantity, the result is the binary32
//! result.
use vstd::prelude::*;

verus! {

/// The distance between neighbouring single-precision numbers around the quantity `v`.
pub open spec fn spacing(v: int) -> int
    decreases v,
{
    if v < 0x100_0000 {
        1
    } else {
        2 * spacing(v / 2)
    }
}

/// The integer nearest to `num / den`; a tie goes to the even one.
pub open spec fn nearest_even(num: int, den: int) -> int {
    let q = num / den;
    let r = num % den;
    if 2 * r < den || (2 * r == den && q % 2 == 0) {
        q
    } else {
        q + 1
    }
}

/// The single-precision number nearest to `num / den` ticks, in ticks.
pub open spec fn to_single(num: int, den: int) -> int {
    let g = spacing(num / den);
    g * nearest_even(num, den * g)
}

/// The single-precision number nearest to the integer `v`, in ticks, for either sign.
pub open spec fn signed_single(v: int) -> int {
    if v < 0 {
        -to_single(-v, 1)
    } else {
        to_single(v, 1)
    }
}

/// The greatest integer whose square does not exceed `x`.
pub open spec fn floor_root(x: int) -> int {
    choose|k: int| is_floor_root(x, k)
}

/// `k` is the greatest integer whose square does not exceed `x`.
pub open spec fn is_floor_root(x: int, k: int) -> bool {
    0 <= k && k * k <= x < (k + 1) * (k + 1)
}

/// The single-precision number nearest to the square root of `x`, in ticks.
pub open spec fn root_single(x: int) -> int {
    let k = floor_root(x);
    let g = spacing(k);
    let m = k / g;
    let mid = (2 * m + 1) * g;
    if 4 * x < mid * mid || (4 * x == mid * mid && m % 2 == 0) {
        m * g
    } else {
        (m + 1) * g
    }
}

/// The spacing is positive, and it is the least power of two that leaves room for the quantity.
pub proof fn lemma_spacing_bounds(v: int)
    requires
        0 <= v,
    ensures
        1 <= spacing(v),
        v < 0x100_0000 * spacing(v),
        spacing(v) == 1 || 0x80_0000 * spacing(v) <= v,
    decreases v,
{
    if v >= 0x100_0000 {
        lemma_spacing_bounds(v / 2);
    }
}

/// A larger quantity has the same spacing, or one at least twice as wide.
pub proof fn lemma_spacing_monotone(a: int, b: int)
    requires
        0 <= a <= b,
    ensures
        spacing(a) == spacing(b) || 2 * spacing(a) <= spacing(b),
    decreases b,
{
    if b >= 0x100_0000 {
        if a >= 0x100_0000 {
            lemma_spacing_monotone(a / 2, b / 2);
        } else {
            lemma_spacing_bounds(b / 2);
        }
    }
}

/// Rounding to the nearest integer keeps the order, and stays between the neighbours.
proof fn lemma_nearest_even_monotone(a: int, b: int, den: int)
    requires
        0 <= a <= b,
        0 < den,
    ensures
        nearest_even(a, den) <= nearest_even(b, den),
{
    let qa = a / den;
    let qb = b / den;
    assert(qa <= qb && (qa == qb ==> a % den <= b % den)) by {
        vstd::arithmetic::div_mod::lemma_div_is_ordered(a, b, den);
        vstd::arithmetic::div_mod::lemma_fundamental_div_mod(a, den);
        vstd::arithmetic::div_mod::lemma_fundamental_div_mod(b, den);
    }
}

/// The rounded significand has at most twenty-four digits, and exactly that many wherever the
/// spacing is wider than a tick.
proof fn lemma_significand_bounds(num: int, den: int)
    requires
        0 <= num,
        0 < den,
    ensures
        0 < den * spacing(num / den),
        nearest_even(num, den * spacing(num / den)) <= 0x100_0000,
        0 <= nearest_even(num, den * spacing(num / den)),
        spacing(num / den) > 1 ==> 0x80_0000 <= nearest_even(num, den * spacing(num / den)),
{
    let v = num / den;
    let g = spacing(v);
    vstd::arithmetic::div_mod::lemma_div_pos_is_pos(num, den);
    lemma_spacing_bounds(v);
    vstd::arithmetic::div_mod::lemma_fundamental_div_mod(num, den);
    vstd::arithmetic::div_mod::lemma_mod_bound(num, den);
    let d = den * g;
    assert(0 < d) by (nonlinear_arith)
        requires
            0 < den,
            1 <= g,
            d == den * g,
    ;
    let q = num / d;
    let r = num % d;
    vstd::arithmetic::div_mod::lemma_fundamental_div_mod(num, d);
    vstd::arithmetic::div_mod::lemma_mod_bound(num, d);
    assert(num < 0x100_0000 * d) by (nonlinear_arith)
        requires
            num == den * v + num % den,
            num % den < den,
            v + 1 <= 0x100_0000 * g,
            0 < den,
            d == den * g,
    ;
    assert(q < 0x100_0000) by (nonlinear_arith)
        requires
            num == d * q + r,
            0 <= r,
            num < 0x100_0000 * d,
            0 < d,
    ;
    assert(0 <= q) by (nonlinear_arith)
        requires
            num == d * q + r,
            r < d,
            0 <= num,
            0 < d,
    ;
    if g > 1 {
        assert(0x80_0000 * d <= num) by (nonlinear_arith)
            requires
                num == den * v + num % den,
                0 <= num % den,
                0x80_0000 * g <= v,
                0 < den,
                d == den * g,
        ;
        assert(0x80_0000 <= q) by (nonlinear_arith)
            requires
                num == d * q + r,
                r < d,
                0x80_0000 * d <= num,
                0 < d,
        ;
    }
}

/// A rounded quantity is off by no more than half of the spacing around it.
pub proof fn lemma_to_single_near(num: int, den: int)
    requires
        0 <= num,
        0 < den,
    ensures
        2 * (to_single(num, den) * den - num) <= spacing(num / den) * den,
        2 * (num - to_single(num, den) * den) <= spacing(num / den) * den,
        0 <= to_single(num, den),
{
    lemma_significand_bounds(num, den);
    let g = spacing(num / den);
    let d = den * g;
    let q = num / d;
    let r = num % d;
    let m = nearest_even(num, d);
    vstd::arithmetic::div_mod::lemma_fundamental_div_mod(num, d);
    vstd::arithmetic::div_mod::lemma_mod_bound(num, d);
    vstd::arithmetic::div_mod::lemma_div_pos_is_pos(num, den);
    lemma_spacing_bounds(num / den);
    assert(g * m * den == d * m) by (nonlinear_arith)
        requires
            d == den * g,
    ;
    assert(g * den == d) by (nonlinear_arith)
        requires
            d == den * g,
    ;
    assert(m == q || m == q + 1);
    assert(d * (q + 1) == d * q + d) by (nonlinear_arith);
    assert(0 <= g * m) by (nonlinear_arith)
        requires
            1 <= g,
            0 <= m,
    ;
}

/// Rounding keeps the order of two quantities.
pub proof fn lemma_to_single_monotone(a: int, b: int, den: int)
    requires
        0 <= a <= b,
        0 < den,
    ensures
        to_single(a, den) <= to_single(b, den),
{
    let va = a / den;
    let vb = b / den;
    let ga = spacing(va);
    let gb = spacing(vb);
    vstd::arithmetic::div_mod::lemma_div_is_ordered(a, b, den);
    vstd::arithmetic::div_mod::lemma_div_pos_is_pos(a, den);
    lemma_spacing_bounds(va);
    lemma_spacing_monotone(va, vb);
    lemma_significand_bounds(a, den);
    lemma_significand_bounds(b, den);
    let ma = nearest_even(a, den * ga);
    let mb = nearest_even(b, den * gb);
    if ga == gb {
        lemma_nearest_even_monotone(a, b, den * ga);
        assert(ga * ma <= gb * mb) by (nonlinear_arith)
            requires
                ga == gb,
                ma <= mb,
                1 <= ga,
        ;
    } else {
        assert(ga * ma <= gb * mb) by (nonlinear_arith)
            requires
                2 * ga <= gb,
                1 <= ga,
                ma <= 0x100_0000,
                0x80_0000 <= mb,
                0 <= ma,
        ;
    }
}

/// A whole number of ticks below `2^24` is a single-precision number already.
pub proof fn lemma_to_single_exact(v: int)
    requires
        0 <= v < 0x100_0000,
    ensures
        to_single(v, 1) == v,
{
    assert(v % 1 == 0 && v / 1 == v);
}

/// A multiple of a power of two, with at most twenty-four digits in front of it, is kept.
proof fn lemma_to_single_multiple(m: int, g: int, v: int)
    requires
        0 <= v,
        g == spacing(v),
        v == m * g,
    ensures
        to_single(v, 1) == v,
{
    lemma_spacing_bounds(v);
    assert(v / 1 == v);
    assert(1 * g == g);
    assert((m * g) / g == m && (m * g) % g == 0) by {
        vstd::arithmetic::div_mod::lemma_div_multiples_vanish(m, g);
        vstd::arithmetic::div_mod::lemma_mod_multiples_basic(m, g);
    }
    assert(g * m == m * g) by (nonlinear_arith);
}

/// Two to the power of `j`.
pub open spec fn power_of_two(j: nat) -> int
    decreases j,
{
    if j == 0 {
        1
    } else {
        2 * power_of_two((j - 1) as nat)
    }
}

/// The spacing around a multiple of a power of two divides it, as long as what stands in front of
/// that power has at most twenty-four digits.
proof fn lemma_spacing_divides(m: int, j: nat)
    requires
        0 <= m < 0x100_0000,
    ensures
        exists|q: int| m * power_of_two(j) == #[trigger] (q * spacing(m * power_of_two(j))),
    decreases j,
{
    let v = m * power_of_two(j);
    if v < 0x100_0000 {
        assert(v == v * spacing(v)) by {
            assert(spacing(v) == 1);
        }
    } else {
        assert(j > 0);
        let i = (j - 1) as nat;
        let h = m * power_of_two(i);
        assert(v == 2 * h) by (nonlinear_arith)
            requires
                v == m * power_of_two(j),
                power_of_two(j) == 2 * power_of_two(i),
                h == m * power_of_two(i),
        ;
        lemma_spacing_divides(m, i);
        let q = choose|q: int| h == #[trigger] (q * spacing(h));
        assert(v / 2 == h);
        assert(v == q * spacing(v)) by (nonlinear_arith)
            requires
                v == 2 * h,
                h == q * spacing(h),
                spacing(v) == 2 * spacing(h),
        ;
    }
}

/// A multiple of a power of two is kept, as long as what stands in front of that power has at most
/// twenty-four digits.
pub proof fn lemma_to_single_keeps(m: int, j: nat)
    requires
        0 <= m < 0x100_0000,
    ensures
        to_single(m * power_of_two(j), 1) == m * power_of_two(j),
{
    let v = m * power_of_two(j);
    lemma_power_of_two_positive(j);
    assert(0 <= v) by (nonlinear_arith)
        requires
            0 <= m,
            0 < power_of_two(j),
            v == m * power_of_two(j),
    ;
    lemma_spacing_divides(m, j);
    let q = choose|q: int| v == #[trigger] (q * spacing(v));
    lemma_to_single_multiple(q, spacing(v), v);
}

proof fn lemma_power_of_two_positive(j: nat)
    ensures
        0 < power_of_two(j),
    decreases j,
{
    if j > 0 {
        lemma_power_of_two_positive((j - 1) as nat);
    }
}

/// A spacing is a power of two.
proof fn lemma_spacing_is_power(v: int)
    ensures
        exists|j: nat| spacing(v) == #[trigger] power_of_two(j),
    decreases v,
{
    if v < 0x100_0000 {
        assert(spacing(v) == power_of_two(0));
    } else {
        lemma_spacing_is_power(v / 2);
        let j = choose|j: nat| spacing(v / 2) == #[trigger] power_of_two(j);
        assert(spacing(v) == power_of_two(j + 1));
    }
}

/// Powers of two multiply by adding up what they are powers to.
proof fn lemma_powers_add_up(i: nat, j: nat)
    ensures
        power_of_two(i) * power_of_two(j) == power_of_two(i + j),
    decreases i,
{
    if i > 0 {
        let k = (i - 1) as nat;
        lemma_powers_add_up(k, j);
        assert(power_of_two(i) * power_of_two(j) == 2 * (power_of_two(k) * power_of_two(j))) by (nonlinear_arith)
            requires
                power_of_two(i) == 2 * power_of_two(k),
        ;
        assert(power_of_two(i + j) == 2 * power_of_two((i + j - 1) as nat));
    }
}

/// What was rounded is kept, also after it is multiplied by a power of two.
pub proof fn lemma_singles_are_kept(num: int, den: int, k: nat)
    requires
        0 <= num,
        0 < den,
    ensures
        to_single(to_single(num, den) * power_of_two(k), 1) == to_single(num, den) * power_of_two(k),
{
    let g = spacing(num / den);
    let m = nearest_even(num, den * g);
    lemma_significand_bounds(num, den);
    lemma_spacing_is_power(num / den);
    let j = choose|j: nat| g == #[trigger] power_of_two(j);
    lemma_powers_add_up(j, k);
    let p = power_of_two(k);
    assert((g * m) * p == m * power_of_two(j + k)) by (nonlinear_arith)
        requires
            g * p == power_of_two(j + k),
    ;
    if m < 0x100_0000 {
        lemma_to_single_keeps(m, j + k);
    } else {
        lemma_powers_add_up(24, j + k);
        assert(power_of_two(24) == 0x100_0000) by {
            reveal_with_fuel(power_of_two, 25);
        }
        lemma_to_single_keeps(1, 24 + j + k);
    }
}

/// A number has one greatest integer below its square root.
proof fn lemma_floor_root_unique(x: int, k: int)
    requires
        is_floor_root(x, k),
    ensures
        floor_root(x) == k,
{
    let c = floor_root(x);
    assert(is_floor_root(x, c));
    assert(c == k) by (nonlinear_arith)
        requires
            0 <= k,
            0 <= c,
            k * k <= x,
            x < (k + 1) * (k + 1),
            c * c <= x,
            x < (c + 1) * (c + 1),
    ;
}

/// The spacing around a larger number is a multiple of that around a smaller one.
proof fn lemma_spacings_divide(a: int, b: int)
    requires
        0 <= a <= b,
    ensures
        exists|c: int| 1 <= c && spacing(b) == #[trigger] (c * spacing(a)),
    decreases b,
{
    lemma_spacing_bounds(b);
    if b < 0x100_0000 {
        assert(spacing(b) == 1 * spacing(a));
    } else if a < 0x100_0000 {
        assert(spacing(b) == spacing(b) * spacing(a));
    } else {
        lemma_spacings_divide(a / 2, b / 2);
        let c = choose|c: int| 1 <= c && spacing(b / 2) == #[trigger] (c * spacing(a / 2));
        assert(spacing(b) == c * spacing(a)) by (nonlinear_arith)
            requires
                spacing(b) == 2 * spacing(b / 2),
                spacing(a) == 2 * spacing(a / 2),
                spacing(b / 2) == c * spacing(a / 2),
        ;
    }
}

/// A number whose square is reached is no greater than the root, if it is a single.
pub proof fn lemma_root_at_least(x: int, m: int, j: nat)
    requires
        0 <= m < 0x100_0000,
        (m * power_of_two(j)) * (m * power_of_two(j)) <= x,
    ensures
        m * power_of_two(j) <= root_single(x),
{
    let r = m * power_of_two(j);
    lemma_power_of_two_positive(j);
    assert(0 <= r) by (nonlinear_arith)
        requires
            0 <= m,
            0 < power_of_two(j),
            r == m * power_of_two(j),
    ;
    lemma_floor_root_exists(x);
    let k = floor_root(x);
    assert(r <= k) by (nonlinear_arith)
        requires
            r * r <= x,
            x < (k + 1) * (k + 1),
            0 <= k,
            0 <= r,
    ;
    let g = spacing(k);
    let n = k / g;
    lemma_spacing_bounds(k);
    lemma_spacing_bounds(r);
    lemma_spacing_monotone(r, k);
    vstd::arithmetic::div_mod::lemma_fundamental_div_mod(k, g);
    vstd::arithmetic::div_mod::lemma_mod_bound(k, g);
    if spacing(r) == g {
        lemma_spacing_divides(m, j);
        let q = choose|q: int| r == #[trigger] (q * spacing(r));
        assert(q <= n) by (nonlinear_arith)
            requires
                q * g <= k,
                k == g * n + k % g,
                k % g < g,
                0 < g,
        ;
        assert(r <= n * g) by (nonlinear_arith)
            requires
                r == q * g,
                q <= n,
                0 < g,
        ;
    } else {
        assert(0x80_0000 <= n) by (nonlinear_arith)
            requires
                0x80_0000 * g <= k,
                k == g * n + k % g,
                k % g < g,
                0 < g,
        ;
        assert(0x80_0000 * g <= n * g) by (nonlinear_arith)
            requires
                0x80_0000 <= n,
                0 < g,
        ;
    }
    assert((n + 1) * g == n * g + g) by (nonlinear_arith);
}

/// A number whose square is not exceeded is no less than the root, if it is a single.
pub proof fn lemma_root_at_most(x: int, m: int, j: nat)
    requires
        0 <= m < 0x100_0000,
        0 <= x <= (m * power_of_two(j)) * (m * power_of_two(j)),
    ensures
        root_single(x) <= m * power_of_two(j),
{
    let r = m * power_of_two(j);
    lemma_power_of_two_positive(j);
    assert(0 <= r) by (nonlinear_arith)
        requires
            0 <= m,
            0 < power_of_two(j),
            r == m * power_of_two(j),
    ;
    lemma_floor_root_exists(x);
    let k = floor_root(x);
    assert(k <= r) by (nonlinear_arith)
        requires
            x <= r * r,
            k * k <= x,
            0 <= k,
            0 <= r,
    ;
    let g = spacing(k);
    let n = k / g;
    lemma_spacing_bounds(k);
    lemma_spacings_divide(k, r);
    vstd::arithmetic::div_mod::lemma_fundamental_div_mod(k, g);
    vstd::arithmetic::div_mod::lemma_mod_bound(k, g);
    lemma_spacing_divides(m, j);
    let q = choose|q: int| r == #[trigger] (q * spacing(r));
    let c = choose|c: int| 1 <= c && spacing(r) == #[trigger] (c * g);
    let t = q * c;
    assert(r == t * g) by (nonlinear_arith)
        requires
            r == q * spacing(r),
            spacing(r) == c * g,
            t == q * c,
    ;
    assert(n * g == g * n) by (nonlinear_arith);
    if k == r {
        assert(n == t) by (nonlinear_arith)
            requires
                t * g == g * n + k % g,
                0 <= k % g < g,
                0 < g,
        ;
        let mid = (2 * n + 1) * g;
        assert(4 * x < mid * mid) by (nonlinear_arith)
            requires
                x <= r * r,
                r == n * g,
                mid == (2 * n + 1) * g,
                0 <= n,
                0 < g,
                0 <= r,
        ;
    } else {
        assert(n + 1 <= t) by (nonlinear_arith)
            requires
                t * g > k,
                k == g * n + k % g,
                0 <= k % g,
                0 < g,
        ;
        assert((n + 1) * g <= t * g) by (nonlinear_arith)
            requires
                n + 1 <= t,
                0 < g,
        ;
        assert((n + 1) * g == n * g + g) by (nonlinear_arith);
    }
}

/// Every number has a greatest integer below its square root.
pub proof fn lemma_floor_root_exists(x: int)
    requires
        0 <= x,
    ensures
        is_floor_root(x, floor_root(x)),
    decreases x,
{
    if x == 0 {
        assert(is_floor_root(0, 0));
    } else {
        lemma_floor_root_exists(x - 1);
        let k = floor_root(x - 1);
        if x < (k + 1) * (k + 1) {
            assert(is_floor_root(x, k));
        } else {
            assert(x < (k + 2) * (k + 2)) by (nonlinear_arith)
                requires
                    x - 1 < (k + 1) * (k + 1),
                    0 <= k,
            ;
            assert(k + 1 + 1 == k + 2);
            assert(is_floor_root(x, k + 1));
        }
    }
}

/// A root is kept by rounding.
pub proof fn lemma_roots_are_kept(x: int)
    requires
        0 <= x,
    ensures
        to_single(root_single(x), 1) == root_single(x),
        0 <= root_single(x),
{
    lemma_floor_root_exists(x);
    let k = floor_root(x);
    let g = spacing(k);
    let n = k / g;
    lemma_spacing_bounds(k);
    vstd::arithmetic::div_mod::lemma_fundamental_div_mod(k, g);
    vstd::arithmetic::div_mod::lemma_mod_bound(k, g);
    assert(0 <= n < 0x100_0000) by (nonlinear_arith)
        requires
            0 <= k < 0x100_0000 * g,
            k == g * n + k % g,
            0 <= k % g < g,
            0 < g,
    ;
    lemma_spacing_is_power(k);
    let j = choose|j: nat| g == #[trigger] power_of_two(j);
    assert(0 <= n * g && 0 <= (n + 1) * g) by (nonlinear_arith)
        requires
            0 <= n,
            0 < g,
    ;
    lemma_to_single_keeps(n, j);
    if n + 1 < 0x100_0000 {
        lemma_to_single_keeps(n + 1, j);
    } else {
        lemma_powers_add_up(24, j);
        assert(power_of_two(24) == 0x100_0000) by {
            reveal_with_fuel(power_of_two, 25);
        }
        lemma_to_single_keeps(1, 24 + j);
    }
}

/// The distance between neighbouring single-precision numbers around `v`.
pub fn spacing_of(v: u128) -> (g: u128)
    ensures
        g == spacing(v as int),
        g == 1 || 0x80_0000 * g <= v,
        v < 0x100_0000 * g,
        1 <= g,
    decreases v,
{
    proof {
        lemma_spacing_bounds(v as int);
    }
    if v < 0x100_0000 {
        1
    } else {
        let h: u128 = spacing_of(v / 2);
        2 * h
    }
}

/// Small numbers are kept, for either sign.
pub proof fn lemma_signed_single_exact(v: int)
    requires
        -0x100_0000 < v < 0x100_0000,
    ensures
        signed_single(v) == v,
{
    lemma_to_single_exact(if v < 0 {
        -v
    } else {
        v
    });
}

/// Rounding keeps the order, for either sign.
pub proof fn lemma_signed_single_monotone(a: int, b: int)
    requires
        a <= b,
    ensures
        signed_single(a) <= signed_single(b),
{
    if a >= 0 {
        lemma_to_single_monotone(a, b, 1);
    } else if b < 0 {
        lemma_to_single_monotone(-b, -a, 1);
    } else {
        lemma_to_single_near(-a, 1);
        lemma_to_single_near(b, 1);
    }
}

/// The single-precision number nearest to `num / den` ticks.
pub fn round_single(num: u128, den: u128) -> (r: u128)
    requires
        0 < den < 0x1_0000_0000_0000_0000_0000_0000_0000,
        num < 0x1000_0000_0000_0000_0000_0000_0000_0000,
    ensures
        r == to_single(num as int, den as int),
        r <= 2 * num + 1,
{
    let g: u128 = spacing_of(num / den);
    proof {
        lemma_significand_bounds(num as int, den as int);
        vstd::arithmetic::div_mod::lemma_fundamental_div_mod(num as int, den as int);
        let v = num as int / den as int;
        let gi = g as int;
        let di = den as int;
        assert(di * gi <= num || (gi == 1 && di * gi == di)) by (nonlinear_arith)
            requires
                num == di * v + num as int % di,
                0 <= num as int % di,
                gi == 1 || 0x80_0000 * gi <= v,
                0 < di,
                0 <= v,
        ;
    }
    let d: u128 = den * g;
    let q: u128 = num / d;
    let rem: u128 = num % d;
    proof {
        vstd::arithmetic::div_mod::lemma_fundamental_div_mod(num as int, d as int);
        let gi = g as int;
        let qi = q as int;
        let di = den as int;
        assert(gi * qi <= num) by (nonlinear_arith)
            requires
                num == (di * gi) * qi + rem as int,
                0 <= rem as int,
                0 < di,
                0 <= gi,
                0 <= qi,
        ;
        assert(gi * (qi + 1) == gi * qi + gi) by (nonlinear_arith);
        assert(gi <= num + 1) by (nonlinear_arith)
            requires
                di * gi <= num || gi == 1,
                1 <= di,
                1 <= gi,
                0 <= num,
        ;
    }
    if 2 * rem < d || (2 * rem == d && q % 2 == 0) {
        g * q
    } else {
        g * (q + 1)
    }
}

/// The single-precision number nearest to the integer `v`.
pub fn round_signed(v: i128) -> (r: i128)
    requires
        -0x1000_0000_0000_0000_0000_0000_0000 < v < 0x1000_0000_0000_0000_0000_0000_0000,
    ensures
        r == signed_single(v as int),
        v >= 0 ==> 0 <= 8 * r <= 9 * v,
        v < 0 ==> 9 * v <= 8 * r <= 0,
{
    proof {
        let m: int = if v < 0 {
            -(v as int)
        } else {
            v as int
        };
        lemma_to_single_near(m, 1);
        lemma_spacing_bounds(m);
    }
    if v < 0 {
        let m: u128 = round_single((-v) as u128, 1);
        -(m as i128)
    } else {
        let m: u128 = round_single(v as u128, 1);
        m as i128
    }
}

/// The root of zero is zero.
pub proof fn lemma_root_of_zero()
    ensures
        root_single(0) == 0,
{
    lemma_floor_root_unique(0, 0);
    assert(spacing(0) == 1);
}

/// The greatest integer whose square does not exceed `x`.
pub fn integer_root(x: u128) -> (k: u128)
    requires
        x < 0x100_0000_0000_0000_0000_0000_0000_0000,
    ensures
        k == floor_root(x as int),
        is_floor_root(x as int, k as int),
        k < 0x1000_0000_0000_0000,
{
    let mut lo: u128 = 0;
    let mut hi: u128 = 0x1000_0000_0000_0000;
    assert(0x1000_0000_0000_0000int * 0x1000_0000_0000_0000int == 0x100_0000_0000_0000_0000_0000_0000_0000)
        by (nonlinear_arith);
    while hi - lo > 1
        invariant
            lo < hi <= 0x1000_0000_0000_0000,
            lo as int * lo as int <= x < hi as int * hi as int,
        decreases hi - lo,
    {
        let mid: u128 = lo + (hi - lo) / 2;
        assert(mid as int * mid as int <= 0x100_0000_0000_0000_0000_0000_0000_0000) by (nonlinear_arith)
            requires
                0 <= mid < 0x1000_0000_0000_0000,
        ;
        if mid * mid <= x {
            lo = mid;
        } else {
            hi = mid;
        }
    }
    proof {
        lemma_floor_root_unique(x as int, lo as int);
    }
    lo
}

/// The single-precision number nearest to the square root of `x`.
pub fn round_root(x: u128) -> (r: u128)
    requires
        x < 0x100_0000_0000_0000_0000_0000_0000_0000,
    ensures
        r == root_single(x as int),
        r <= 0x2000_0000_0000_0000,
{
    let k: u128 = integer_root(x);
    let g: u128 = spacing_of(k);
    let m: u128 = k / g;
    proof {
        vstd::arithmetic::div_mod::lemma_fundamental_div_mod(k as int, g as int);
        let gi = g as int;
        let mi = m as int;
        assert(mi * gi <= k && (mi + 1) * gi <= k + gi && (2 * mi + 1) * gi <= 2 * k + gi) by (nonlinear_arith)
            requires
                k == gi * mi + k as int % gi,
                0 <= k as int % gi,
        ;
        let mid = (2 * mi + 1) * gi;
        assert(0 <= mid) by (nonlinear_arith)
            requires
                mid == (2 * mi + 1) * gi,
                0 <= mi,
                0 < gi,
        ;
        assert(mid * mid < 0x1000_0000_0000_0000_0000_0000_0000_0000) by (nonlinear_arith)
            requires
                0 <= mid <= 3 * 0x1000_0000_0000_0000,
        ;
        assert((mi + 1) * gi == mi * gi + gi) by (nonlinear_arith);
    }
    let mid: u128 = (2 * m + 1) * g;
    if 4 * x < mid * mid || (4 * x == mid * mid && m % 2 == 0) {
        m * g
    } else {
        (m + 1) * g
    }
}

} // verus!
