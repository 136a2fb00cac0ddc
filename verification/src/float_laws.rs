//! What holds of the number conversions: they keep sign and order, they undo each other where
//! nothing is lost, and what has to be rounded goes to the nearer neighbour.

use vstd::prelude::*;
use vstd::arithmetic::power2::{lemma2_to64, lemma_pow2_adds, lemma_pow2_pos, lemma_pow2_unfold, pow2};
use crate::float::{
    are_equal_singles, double_from_single, double_magnitude, equal_singles, half_magnitude, magnitude,
    magnitude_increases, narrowing_undoes_widening, nearest_single, nearest_single_is_unique,
    rounding_error, single_from_double, single_from_half, single_from_i64, single_magnitude,
};

verus! {

/// In each format the patterns with an exponent field of zero or one count the smallest steps,
/// and from there on one more in the exponent field doubles the value.
pub proof fn exponents_double(m: nat)
    ensures
        m < 0x100_0000 ==> single_magnitude(m) == m,
        m >= 0x80_0000 ==> single_magnitude(m + 0x80_0000) == 2 * single_magnitude(m),
        m < 0x20_0000_0000_0000 ==> double_magnitude(m) == m,
        m >= 0x10_0000_0000_0000 ==> double_magnitude(m + 0x10_0000_0000_0000) == 2
            * double_magnitude(m),
        m < 0x800 ==> half_magnitude(m) == m,
        m >= 0x400 ==> half_magnitude(m + 0x400) == 2 * half_magnitude(m),
{
    lemma2_to64();
    vstd::arithmetic::power2::lemma2_to64_rest();
    doubles(m, 23);
    doubles(m, 52);
    doubles(m, 10);
}

proof fn doubles(m: nat, width: nat)
    ensures
        m < 2 * pow2(width) ==> magnitude(m, width) == m,
        m >= pow2(width) ==> magnitude(m + pow2(width), width) == 2 * magnitude(m, width),
{
    let w = pow2(width);
    lemma_pow2_pos(width);
    lemma2_to64();
    let (e, r) = (m / w, m % w);
    vstd::arithmetic::div_mod::lemma_fundamental_div_mod(m as int, w as int);
    if m < w {
        vstd::arithmetic::div_mod::lemma_basic_div(m as int, w as int);
        vstd::arithmetic::div_mod::lemma_small_mod(m, w);
    } else {
        if m < 2 * w {
            vstd::arithmetic::div_mod::lemma_fundamental_div_mod_converse(
                m as int,
                w as int,
                1,
                m - w,
            );
            assert((w + r) * pow2(0) == m) by (nonlinear_arith)
                requires
                    pow2(0) == 1,
                    w + r == m,
            ;
        }
        assert(e >= 1) by (nonlinear_arith)
            requires
                m == w * e + r,
                m >= w,
                r < w,
        ;
        assert(m + w == (e + 1) * w + r) by (nonlinear_arith)
            requires
                m == w * e + r,
        ;
        vstd::arithmetic::div_mod::lemma_fundamental_div_mod_converse(
            (m + w) as int,
            w as int,
            (e + 1) as int,
            r as int,
        );
        lemma_pow2_unfold(e);
        assert((w + r) * pow2(e) == 2 * ((w + r) * pow2((e - 1) as nat))) by (nonlinear_arith)
            requires
                pow2(e) == 2 * pow2((e - 1) as nat),
        ;
    }
}

/// Of two neighbouring patterns with the value between them, the nearest is the one that is
/// nearer, and where both are as near it is even.
proof fn nearest_of_two(p: nat, s: nat, value: nat, unit: nat)
    requires
        unit > 0,
        s < 0x7f80_0000,
        nearest_single(p, value, unit),
        single_magnitude(s) * unit <= value <= single_magnitude(s + 1) * unit,
    ensures
        p == s || p == s + 1,
        2 * value < single_magnitude(s) * unit + single_magnitude(s + 1) * unit ==> p == s,
        2 * value > single_magnitude(s) * unit + single_magnitude(s + 1) * unit ==> p == s + 1,
        2 * value == single_magnitude(s) * unit + single_magnitude(s + 1) * unit ==> p % 2 == 0,
{
    magnitude_increases(s, s + 1, 23);
    let (lo, hi) = (single_magnitude(s) * unit, single_magnitude(s + 1) * unit);
    assert(lo < hi) by (nonlinear_arith)
        requires
            lo == single_magnitude(s) * unit,
            hi == single_magnitude(s + 1) * unit,
            single_magnitude(s) < single_magnitude(s + 1),
            unit > 0,
    ;
    let here = single_magnitude(p) * unit;
    if p < s {
        magnitude_increases(p, s, 23);
        assert(here < lo) by (nonlinear_arith)
            requires
                here == single_magnitude(p) * unit,
                lo == single_magnitude(s) * unit,
                single_magnitude(p) < single_magnitude(s),
                unit > 0,
        ;
        assert(rounding_error(s, value, unit) < rounding_error(p, value, unit));
    }
    if p > s + 1 {
        magnitude_increases(s + 1, p, 23);
        assert(here > hi) by (nonlinear_arith)
            requires
                here == single_magnitude(p) * unit,
                hi == single_magnitude(s + 1) * unit,
                single_magnitude(p) > single_magnitude(s + 1),
                unit > 0,
        ;
        assert(rounding_error(s + 1, value, unit) < rounding_error(p, value, unit));
    }
    let other = if p == s {
        s + 1
    } else {
        s
    };
    assert(rounding_error(p, value, unit) <= rounding_error(other, value, unit));
}

/// A greater value has a nearest pattern that is no smaller.
proof fn nearest_keeps_order(p: nat, v: nat, q: nat, w: nat, unit: nat)
    requires
        unit > 0,
        nearest_single(p, v, unit),
        nearest_single(q, w, unit),
        v <= w,
    ensures
        p <= q,
{
    if q < p {
        magnitude_increases(q, p, 23);
        let (a, b) = (single_magnitude(q) * unit, single_magnitude(p) * unit);
        assert(a < b) by (nonlinear_arith)
            requires
                a == single_magnitude(q) * unit,
                b == single_magnitude(p) * unit,
                single_magnitude(q) < single_magnitude(p),
                unit > 0,
        ;
        assert(rounding_error(p, v, unit) <= rounding_error(q, v, unit));
        assert(rounding_error(q, w, unit) <= rounding_error(p, w, unit));
        assert(v == w || 2 * w <= a + b <= 2 * v);
        nearest_single_is_unique(p, q, v, unit);
    }
}

/// A value from two to the power 128 on has infinity as its nearest.
proof fn nearest_past_the_end(p: nat, value: nat, unit: nat)
    requires
        unit > 0,
        nearest_single(p, value, unit),
        value >= single_magnitude(0x7f80_0000) * unit,
    ensures
        p == 0x7f80_0000,
{
    if p < 0x7f80_0000 {
        magnitude_increases(p, 0x7f80_0000, 23);
        let (a, b) = (single_magnitude(p) * unit, single_magnitude(0x7f80_0000) * unit);
        assert(a < b) by (nonlinear_arith)
            requires
                a == single_magnitude(p) * unit,
                b == single_magnitude(0x7f80_0000) * unit,
                single_magnitude(p) < single_magnitude(0x7f80_0000),
                unit > 0,
        ;
        assert(rounding_error(0x7f80_0000, value, unit) < rounding_error(p, value, unit));
    }
}

/// A finite double-precision number between two neighbouring single-precision ones becomes the
/// nearer of the two, and the even one where both are as near. `s` may be the last finite number:
/// its neighbour is then two to the power 128, which is infinity.
pub proof fn narrowing_goes_to_the_nearer_neighbour(x: u64, r: u32, s: u32)
    requires
        call_ensures(single_from_double, (x,), r),
        x < 0x7ff0_0000_0000_0000,
        s < 0x7f80_0000,
        single_magnitude(s as nat) * pow2(925) <= double_magnitude(x as nat) <= single_magnitude(
            (s + 1) as nat,
        ) * pow2(925),
    ensures
        r == s || r == s + 1,
        2 * double_magnitude(x as nat) < (single_magnitude(s as nat) + single_magnitude(
            (s + 1) as nat,
        )) * pow2(925) ==> r == s,
        2 * double_magnitude(x as nat) > (single_magnitude(s as nat) + single_magnitude(
            (s + 1) as nat,
        )) * pow2(925) ==> r == s + 1,
        2 * double_magnitude(x as nat) == (single_magnitude(s as nat) + single_magnitude(
            (s + 1) as nat,
        )) * pow2(925) ==> r % 2 == 0,
{
    lemma_pow2_pos(925);
    nearest_of_two(r as nat, s as nat, double_magnitude(x as nat), pow2(925));
    let (a, b) = (single_magnitude(s as nat), single_magnitude((s + 1) as nat));
    assert((a + b) * pow2(925) == a * pow2(925) + b * pow2(925)) by (nonlinear_arith);
}

/// An integer whose absolute value is between two neighbouring single-precision numbers becomes
/// the nearer of the two, and the even one where both are as near. It has the sign bit where it is
/// negative.
pub proof fn integers_go_to_the_nearer_neighbour(x: i64, r: u32, n: nat, s: u32)
    requires
        call_ensures(single_from_i64, (x,), r),
        n == (if x < 0 {
            -x
        } else {
            x as int
        }),
        s < 0x7f80_0000,
        single_magnitude(s as nat) <= n * pow2(149) <= single_magnitude((s + 1) as nat),
    ensures
        (r >= 0x8000_0000) == (x < 0),
        r % 0x8000_0000 == s || r % 0x8000_0000 == s + 1,
        2 * (n * pow2(149)) < single_magnitude(s as nat) + single_magnitude((s + 1) as nat) ==> r
            % 0x8000_0000 == s,
        2 * (n * pow2(149)) > single_magnitude(s as nat) + single_magnitude((s + 1) as nat) ==> r
            % 0x8000_0000 == s + 1,
        2 * (n * pow2(149)) == single_magnitude(s as nat) + single_magnitude((s + 1) as nat) ==> r
            % 2 == 0,
{
    nearest_of_two((r % 0x8000_0000) as nat, s as nat, n * pow2(149), 1);
}

/// The sign has no part in narrowing but to be kept: numbers that differ in their sign alone stay
/// so. The negative ones have patterns from the sign bit on.
pub proof fn narrowing_keeps_the_sign(x: u64, y: u64, r: u32, t: u32)
    requires
        call_ensures(single_from_double, (x,), r),
        call_ensures(single_from_double, (y,), t),
        y == x + 0x8000_0000_0000_0000,
    ensures
        r < 0x8000_0000,
        t == r + 0x8000_0000,
{
    lemma_pow2_pos(925);
    if x < 0x7ff0_0000_0000_0000 {
        nearest_single_is_unique(
            r as nat,
            (t - 0x8000_0000) as nat,
            double_magnitude(x as nat),
            pow2(925),
        );
    }
}

/// Narrowing keeps the order of numbers, infinity included.
pub proof fn narrowing_keeps_the_order(x: u64, y: u64, r: u32, t: u32)
    requires
        call_ensures(single_from_double, (x,), r),
        call_ensures(single_from_double, (y,), t),
        x <= y <= 0x7ff0_0000_0000_0000,
    ensures
        r <= t <= 0x7f80_0000,
{
    lemma_pow2_pos(925);
    if y < 0x7ff0_0000_0000_0000 {
        if x < y {
            magnitude_increases(x as nat, y as nat, 52);
        }
        nearest_keeps_order(
            r as nat,
            double_magnitude(x as nat),
            t as nat,
            double_magnitude(y as nat),
            pow2(925),
        );
    }
}

/// Numbers from two to the power 128 on become infinity, infinity stays, and what is not a number
/// stays so, with the leading bits of its payload.
pub proof fn narrowing_past_the_end(x: u64, r: u32)
    requires
        call_ensures(single_from_double, (x,), r),
        x < 0x8000_0000_0000_0000,
    ensures
        x < 0x7ff0_0000_0000_0000 && double_magnitude(x as nat) >= single_magnitude(0x7f80_0000)
            * pow2(925) ==> r == 0x7f80_0000,
        x == 0x7ff0_0000_0000_0000 ==> r == 0x7f80_0000,
        x > 0x7ff0_0000_0000_0000 <==> r > 0x7f80_0000,
        x > 0x7ff0_0000_0000_0000 ==> r >= 0x7fc0_0000 && r % 0x40_0000 == x / 0x2000_0000
            % 0x40_0000,
{
    lemma_pow2_pos(925);
    if x < 0x7ff0_0000_0000_0000 {
        if double_magnitude(x as nat) >= single_magnitude(0x7f80_0000) * pow2(925) {
            nearest_past_the_end(r as nat, double_magnitude(x as nat), pow2(925));
        }
    }
}

/// Widening and then narrowing gives a number back as it was.
pub proof fn widening_loses_nothing(x: u32, wide: u64, r: u32)
    requires
        call_ensures(double_from_single, (x,), wide),
        call_ensures(single_from_double, (wide,), r),
    ensures
        x % 0x8000_0000 <= 0x7f80_0000 ==> r == x,
        x % 0x8000_0000 >= 0x7fc0_0000 ==> r == x,
{
    if x % 0x8000_0000 <= 0x7f80_0000 {
        narrowing_undoes_widening(x, wide, r);
    }
}

/// Widening keeps the value: the double-precision number counts as many of its smallest steps as
/// fit into those of the single-precision one. The sign, infinity and what is not a number stay.
pub proof fn widening_keeps_the_value(x: u32, r: u64)
    requires
        call_ensures(double_from_single, (x,), r),
    ensures
        (r >= 0x8000_0000_0000_0000) == (x >= 0x8000_0000),
        x % 0x8000_0000 < 0x7f80_0000 ==> r % 0x8000_0000_0000_0000 < 0x7ff0_0000_0000_0000
            && double_magnitude((r % 0x8000_0000_0000_0000) as nat) == single_magnitude(
            (x % 0x8000_0000) as nat,
        ) * pow2(925),
        x % 0x8000_0000 == 0x7f80_0000 ==> r % 0x8000_0000_0000_0000 == 0x7ff0_0000_0000_0000,
        x % 0x8000_0000 > 0x7f80_0000 ==> r % 0x8000_0000_0000_0000 > 0x7ff0_0000_0000_0000,
{
}

/// A half-precision number keeps its value and its sign. Infinity stays, and what is not a number
/// stays so, with its payload.
pub proof fn halves_keep_their_value(x: u16, r: u32)
    requires
        call_ensures(single_from_half, (x,), r),
    ensures
        (r >= 0x8000_0000) == (x >= 0x8000),
        x % 0x8000 < 0x7c00 ==> r % 0x8000_0000 < 0x7f80_0000 && single_magnitude(
            (r % 0x8000_0000) as nat,
        ) == half_magnitude((x % 0x8000) as nat) * pow2(125),
        x % 0x8000 == 0x7c00 ==> r % 0x8000_0000 == 0x7f80_0000,
        x % 0x8000 > 0x7c00 ==> r % 0x8000_0000 >= 0x7fc0_0000 && r % 0x40_0000 == x % 0x200
            * 0x2000,
{
}

/// Negating an integer other than zero sets the sign bit and nothing else. No integer becomes
/// infinite, and zero becomes zero.
pub proof fn integers_keep_their_sign(x: i64, y: i64, r: u32, t: u32)
    requires
        call_ensures(single_from_i64, (x,), r),
        call_ensures(single_from_i64, (y,), t),
        x >= 0,
        y == -x,
    ensures
        r < 0x7f80_0000,
        x == 0 <==> r == 0,
        x > 0 ==> t == r + 0x8000_0000,
{
    lemma2_to64();
    vstd::arithmetic::power2::lemma2_to64_rest();
    lemma_pow2_pos(149);
    let v = x as nat * pow2(149);
    if x > 0 {
        nearest_single_is_unique(r as nat, (t - 0x8000_0000) as nat, v, 1);
        assert(v > single_magnitude(0)) by {
            exponents_double(0);
            assert(v > 0) by (nonlinear_arith)
                requires
                    v == x as nat * pow2(149),
                    x > 0,
                    pow2(149) > 0,
            ;
        }
        one_is_not_zero(r, v);
    } else {
        assert(v == 0) by (nonlinear_arith)
            requires
                v == x as nat * pow2(149),
                x == 0,
        ;
        exponents_double(0);
        if r != 0 {
            magnitude_increases(0, r as nat, 23);
            assert(rounding_error(0, v, 1) < rounding_error(r as nat, v, 1));
        }
    }
    integers_are_finite(x, r);
}

proof fn one_is_not_zero(r: u32, v: nat)
    requires
        nearest_single(r as nat, v, 1),
        v >= 1,
    ensures
        r != 0,
{
    exponents_double(0);
    exponents_double(1);
    if r == 0 {
        assert(rounding_error(0, v, 1) <= rounding_error(1, v, 1));
    }
}

proof fn integers_are_finite(x: i64, r: u32)
    requires
        x >= 0,
        nearest_single(r as nat, x as nat * pow2(149), 1),
    ensures
        r < 0x7f80_0000,
{
    lemma2_to64();
    vstd::arithmetic::power2::lemma2_to64_rest();
    // Two to the power 64 has the pattern 0x5f80_0000.
    let p: nat = 0x5f80_0000;
    assert(p / pow2(23) == 191 && p % pow2(23) == 0);
    lemma_pow2_adds(190, 23);
    lemma_pow2_adds(149, 64);
    assert(single_magnitude(p) == pow2(149) * pow2(64)) by {
        assert((pow2(23) + 0) * pow2(190) == pow2(213)) by (nonlinear_arith)
            requires
                pow2(213) == pow2(190) * pow2(23),
        ;
    }
    lemma_pow2_pos(149);
    assert(x as nat * pow2(149) <= single_magnitude(p)) by (nonlinear_arith)
        requires
            x < 0x1_0000_0000_0000_0000,
            x >= 0,
            pow2(64) == 0x1_0000_0000_0000_0000,
            single_magnitude(p) == pow2(149) * pow2(64),
    ;
    if r >= 0x7f80_0000 {
        magnitude_increases(p, r as nat, 23);
        assert(rounding_error(p, x as nat * pow2(149), 1) < rounding_error(
            r as nat,
            x as nat * pow2(149),
            1,
        ));
    }
}

/// Integers keep their order.
pub proof fn integers_keep_their_order(x: i64, y: i64, r: u32, t: u32)
    requires
        call_ensures(single_from_i64, (x,), r),
        call_ensures(single_from_i64, (y,), t),
        0 <= x <= y,
    ensures
        r <= t,
{
    assert(x as nat * pow2(149) <= y as nat * pow2(149)) by (nonlinear_arith)
        requires
            0 <= x <= y,
    ;
    nearest_keeps_order(r as nat, x as nat * pow2(149), t as nat, y as nat * pow2(149), 1);
}

/// The value of a single-precision pattern with its sign, in units of two to the power -149.
pub open spec fn signed_value(x: u32) -> int {
    if x < 0x8000_0000 {
        single_magnitude(x as nat) as int
    } else {
        -(single_magnitude((x - 0x8000_0000) as nat) as int)
    }
}

/// Two patterns count as equal exactly where both stand for numbers and these have one value.
pub proof fn equal_patterns_have_one_value(a: u32, b: u32, r: bool)
    requires
        call_ensures(are_equal_singles, (a, b), r),
    ensures
        r <==> a % 0x8000_0000 <= 0x7f80_0000 && b % 0x8000_0000 <= 0x7f80_0000 && signed_value(a)
            == signed_value(b),
{
    equal_numbers_have_one_value(a, b);
}

/// Numbers are equal where they have one value.
pub proof fn equal_numbers_have_one_value(a: u32, b: u32)
    ensures
        equal_singles(a, b) <==> a % 0x8000_0000 <= 0x7f80_0000 && b % 0x8000_0000 <= 0x7f80_0000
            && signed_value(a) == signed_value(b),
{
    exponents_double(0);
    let (m, n) = ((a % 0x8000_0000) as nat, (b % 0x8000_0000) as nat);
    if m < n {
        magnitude_increases(m, n, 23);
    } else if n < m {
        magnitude_increases(n, m, 23);
    }
    if m > 0 {
        magnitude_increases(0, m, 23);
    }
    if n > 0 {
        magnitude_increases(0, n, 23);
    }
}

} // verus!
