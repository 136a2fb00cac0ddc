//! Conversions between binary floating-point formats, on their bit patterns.
//!
//! A segment stores vectors of single-precision numbers, and column values come as
//! other number types. Here a number is the bit pattern of its format, held in an unsigned
//! integer: a `u16` for half precision, a `u32` for single and a `u64` for double. The value of
//! a pattern is stated as a whole number of the format's smallest steps, so that what a
//! conversion does is exact arithmetic on integers.

use vstd::prelude::*;
use vstd::arithmetic::power2::{
    lemma2_to64, lemma2_to64_rest, lemma_pow2_adds, lemma_pow2_pos, lemma_pow2_strictly_increases,
    lemma_pow2_unfold, pow2,
};
use vstd::bits::{lemma_u64_shl_is_mul, lemma_u64_shr_is_div};
use vstd::std_specs::bits::axiom_u64_leading_zeros;

verus! {

/// The single-precision pattern of infinity.
pub const SINGLE_INFINITY: u32 = 0x7f80_0000;

/// The single-precision pattern of zero with the sign set.
pub const SINGLE_SIGN: u32 = 0x8000_0000;

/// The double-precision pattern of infinity.
pub const DOUBLE_INFINITY: u64 = 0x7ff0_0000_0000_0000;

/// The double-precision pattern of zero with the sign set.
pub const DOUBLE_SIGN: u64 = 0x8000_0000_0000_0000;

/// The half-precision pattern of infinity.
pub const HALF_INFINITY: u16 = 0x7c00;

/// The half-precision pattern of zero with the sign set.
pub const HALF_SIGN: u16 = 0x8000;

/// What a pattern stands for that has `width` mantissa bits: the mantissa where the exponent
/// field is zero; else the mantissa with its leading one, doubled once for every exponent step
/// above one. In units of the format's smallest positive number.
pub open spec fn magnitude(pattern: nat, width: nat) -> nat {
    let exponent = pattern / pow2(width);
    let mantissa = pattern % pow2(width);
    if exponent == 0 {
        mantissa
    } else {
        (pow2(width) + mantissa) * pow2((exponent - 1) as nat)
    }
}

/// The value of an unsigned single-precision pattern, in units of two to the power -149. The
/// pattern of infinity stands for two to the power 128, the first value past the finite ones.
pub open spec fn single_magnitude(pattern: nat) -> nat {
    magnitude(pattern, 23)
}

/// The value of an unsigned, finite double-precision pattern, in units of two to the power -1074.
pub open spec fn double_magnitude(pattern: nat) -> nat {
    magnitude(pattern, 52)
}

/// The value of an unsigned, finite half-precision pattern, in units of two to the power -24.
pub open spec fn half_magnitude(pattern: nat) -> nat {
    magnitude(pattern, 10)
}

/// How far `a` and `b` are apart.
pub open spec fn distance(a: int, b: int) -> int {
    if a <= b {
        b - a
    } else {
        a - b
    }
}

/// How far the single-precision pattern `pattern` is from `value`, where one unit of the pattern
/// is `unit` units of the value.
pub open spec fn rounding_error(pattern: nat, value: nat, unit: nat) -> int {
    distance((single_magnitude(pattern) * unit) as int, value as int)
}

/// The unsigned single-precision pattern `pattern` is the one nearest to `value`, and of two
/// that are equally near the even one. Values from half a step below two to the power 128 on are
/// nearest to infinity.
pub open spec fn nearest_single(pattern: nat, value: nat, unit: nat) -> bool {
    &&& pattern <= SINGLE_INFINITY
    &&& forall|other: nat|
        other <= SINGLE_INFINITY && other != pattern ==> {
            ||| rounding_error(pattern, value, unit) < #[trigger] rounding_error(
                other,
                value,
                unit,
            )
            ||| rounding_error(pattern, value, unit) == rounding_error(other, value, unit)
                && pattern % 2 == 0
        }
}

/// Whether two single-precision patterns stand for equal numbers: neither is a NaN, and they are
/// one pattern or are both zero.
pub open spec fn equal_singles(a: u32, b: u32) -> bool {
    &&& a % SINGLE_SIGN <= SINGLE_INFINITY
    &&& b % SINGLE_SIGN <= SINGLE_INFINITY
    &&& a == b || (a % SINGLE_SIGN == 0 && b % SINGLE_SIGN == 0)
}

/// Whether two single-precision patterns stand for equal numbers.
pub fn are_equal_singles(a: u32, b: u32) -> (r: bool)
    ensures
        r == equal_singles(a, b),
{
    a % SINGLE_SIGN <= SINGLE_INFINITY && b % SINGLE_SIGN <= SINGLE_INFINITY && (a == b || (a
        % SINGLE_SIGN == 0 && b % SINGLE_SIGN == 0))
}

/// `r` is the single-precision number nearest to the integer `x`.
pub open spec fn single_of_integer(x: int, r: u32) -> bool {
    &&& (r >= SINGLE_SIGN) == (x < 0)
    &&& nearest_single(r as nat % 0x8000_0000, distance(x, 0) as nat * pow2(149), 1)
}

/// `r` is the single-precision number nearest to the double-precision number `x`. Infinities
/// stay, and a NaN stays a NaN with the leading bits of its payload, made quiet.
pub open spec fn single_of_double(x: u64, r: u32) -> bool {
    let magnitude = x % DOUBLE_SIGN;
    let pattern = r % SINGLE_SIGN;
    &&& (r >= SINGLE_SIGN) == (x >= DOUBLE_SIGN)
    &&& magnitude < DOUBLE_INFINITY ==> nearest_single(
        pattern as nat,
        double_magnitude(magnitude as nat),
        pow2(925),
    )
    &&& magnitude == DOUBLE_INFINITY ==> pattern == SINGLE_INFINITY
    &&& magnitude > DOUBLE_INFINITY ==> pattern == 0x7fc0_0000 + magnitude / 0x2000_0000
        % 0x40_0000
}

/// `r` is the half-precision number `x` in single precision, which holds it exactly. An
/// infinity stays, and a NaN stays a NaN with its payload, made quiet.
pub open spec fn single_of_half(x: u16, r: u32) -> bool {
    let magnitude = x % HALF_SIGN;
    let pattern = r % SINGLE_SIGN;
    &&& (r >= SINGLE_SIGN) == (x >= HALF_SIGN)
    &&& magnitude < HALF_INFINITY ==> pattern < SINGLE_INFINITY && single_magnitude(pattern as nat)
        == half_magnitude(magnitude as nat) * pow2(125)
    &&& magnitude == HALF_INFINITY ==> pattern == SINGLE_INFINITY
    &&& magnitude > HALF_INFINITY ==> pattern == 0x7fc0_0000 + magnitude % 0x200 * 0x2000
}

/// `r` is the single-precision number `x` in double precision, which holds it exactly. An
/// infinity stays, and a NaN stays a NaN with its payload, made quiet.
pub open spec fn double_of_single(x: u32, r: u64) -> bool {
    let magnitude = x % SINGLE_SIGN;
    let pattern = r % DOUBLE_SIGN;
    &&& (r >= DOUBLE_SIGN) == (x >= SINGLE_SIGN)
    &&& magnitude < SINGLE_INFINITY ==> pattern < DOUBLE_INFINITY && double_magnitude(
        pattern as nat,
    ) == single_magnitude(magnitude as nat) * pow2(925)
    &&& magnitude == SINGLE_INFINITY ==> pattern == DOUBLE_INFINITY
    &&& magnitude > SINGLE_INFINITY ==> pattern == 0x7ff8_0000_0000_0000 + magnitude % 0x40_0000
        * 0x2000_0000
}

/// The double-precision pattern of the single-precision number `x`.
pub open spec fn widened(x: u32) -> u64 {
    choose|r: u64| double_of_single(x, r)
}

/// A pattern put together from a step `t` and a count `k` of such steps.
proof fn magnitude_of_steps(t: nat, k: nat, width: nat)
    requires
        t == 0 || pow2(width) <= k,
        k <= 2 * pow2(width),
    ensures
        magnitude(t * pow2(width) + k, width) == k * pow2(t),
{
    let w = pow2(width);
    let m = t * w + k;
    lemma_pow2_pos(width);
    lemma2_to64();
    if k < w {
        assert(t == 0);
        assert(t * w == 0) by (nonlinear_arith)
            requires
                t == 0,
        ;
        vstd::arithmetic::div_mod::lemma_basic_div(k as int, w as int);
        vstd::arithmetic::div_mod::lemma_small_mod(k, w);
    } else if k < 2 * w {
        assert(m == (t + 1) * w + (k - w)) by (nonlinear_arith)
            requires
                m == t * w + k,
        ;
        vstd::arithmetic::div_mod::lemma_fundamental_div_mod_converse(
            m as int,
            w as int,
            (t + 1) as int,
            (k - w) as int,
        );
    } else {
        assert(m == (t + 2) * w) by (nonlinear_arith)
            requires
                m == t * w + 2 * w,
        ;
        vstd::arithmetic::div_mod::lemma_fundamental_div_mod_converse(
            m as int,
            w as int,
            (t + 2) as int,
            0,
        );
        lemma_pow2_unfold((t + 1) as nat);
        assert(w * (2 * pow2(t)) == (2 * w) * pow2(t)) by (nonlinear_arith);
    }
}

/// The step `t` and the count `k` of a pattern; the next pattern is one step further on.
proof fn steps_of(m: nat, width: nat) -> (steps: (nat, nat))
    ensures
        ({
            let (t, k) = steps;
            &&& m == t * pow2(width) + k
            &&& t == 0 || pow2(width) <= k
            &&& k < 2 * pow2(width)
            &&& magnitude(m, width) == k * pow2(t)
            &&& magnitude(m + 1, width) == (k + 1) * pow2(t)
        }),
{
    let w = pow2(width);
    lemma_pow2_pos(width);
    let e = m / w;
    vstd::arithmetic::div_mod::lemma_fundamental_div_mod(m as int, w as int);
    let t: nat = if e == 0 {
        0
    } else {
        (e - 1) as nat
    };
    let k: nat = if e == 0 {
        m
    } else {
        w + m % w
    };
    assert(w * e == e * w) by (nonlinear_arith);
    assert(m == t * w + k) by (nonlinear_arith)
        requires
            m == e * w + m % w,
            e == 0 ==> t == 0 && k == m,
            e > 0 ==> t == e - 1 && k == w + m % w,
    ;
    assert(m + 1 == t * w + (k + 1));
    magnitude_of_steps(t, k, width);
    magnitude_of_steps(t, k + 1, width);
    (t, k)
}

/// A greater pattern stands for a greater value.
pub proof fn magnitude_increases(a: nat, b: nat, width: nat)
    requires
        a < b,
    ensures
        magnitude(a, width) < magnitude(b, width),
    decreases b,
{
    let c = (b - 1) as nat;
    let (t, k) = steps_of(c, width);
    lemma_pow2_pos(t);
    assert(k * pow2(t) < (k + 1) * pow2(t)) by (nonlinear_arith)
        requires
            pow2(t) > 0,
    ;
    if a < c {
        magnitude_increases(a, c, width);
    }
}

/// A count `k` of steps `t` that is within half a step of the value, and even where it is
/// exactly half a step off, is the nearest pattern.
proof fn nearest_from_steps(t: nat, k: nat, value: nat, unit: nat)
    requires
        unit > 0,
        t == 0 || pow2(23) <= k,
        k <= 2 * pow2(23),
        t * pow2(23) + k <= SINGLE_INFINITY,
        t > 0 ==> pow2(23) * (pow2(t) * unit) <= value,
        2 * distance((k * (pow2(t) * unit)) as int, value as int) <= pow2(t) * unit,
        2 * distance((k * (pow2(t) * unit)) as int, value as int) == pow2(t) * unit ==> k % 2 == 0,
    ensures
        nearest_single(t * pow2(23) + k, value, unit),
{
    let r = t * pow2(23) + k;
    let step = pow2(t) * unit;
    let here = k * step;
    lemma2_to64();
    lemma_pow2_pos(t);
    magnitude_of_steps(t, k, 23);
    assert(single_magnitude(r) * unit == here) by (nonlinear_arith)
        requires
            single_magnitude(r) == k * pow2(t),
            here == k * (pow2(t) * unit),
    ;
    assert(r % 2 == k % 2) by (nonlinear_arith)
        requires
            r == t * 0x80_0000 + k,
    ;
    assert(single_magnitude(r + 1) * unit >= here + step) by {
        // The step above `r` is at least `t`.
        if k < 2 * pow2(23) {
            magnitude_of_steps(t, k + 1, 23);
            assert(r + 1 == t * pow2(23) + (k + 1));
            assert(((k + 1) * pow2(t)) * unit == here + step) by (nonlinear_arith)
                requires
                    here == k * (pow2(t) * unit),
                    step == pow2(t) * unit,
            ;
        } else {
            assert(r == (t + 1) * pow2(23) + pow2(23)) by (nonlinear_arith)
                requires
                    r == t * pow2(23) + k,
                    k == 2 * pow2(23),
            ;
            magnitude_of_steps(t + 1, pow2(23) + 1, 23);
            lemma_pow2_unfold(t + 1);
            assert(((pow2(23) + 1) * pow2(t + 1)) * unit >= here + step) by (nonlinear_arith)
                requires
                    here == k * (pow2(t) * unit),
                    step == pow2(t) * unit,
                    k == 2 * pow2(23),
                    pow2(t + 1) == 2 * pow2(t),
                    pow2(t) > 0,
                    unit > 0,
            ;
        }
    }
    assert forall|m: nat| m <= SINGLE_INFINITY && m != r implies {
        ||| rounding_error(r, value, unit) < #[trigger] rounding_error(m, value, unit)
        ||| rounding_error(r, value, unit) == rounding_error(m, value, unit) && r % 2 == 0
    } by {
        let there = single_magnitude(m) * unit;
        if m > r {
            if m > r + 1 {
                magnitude_increases(r + 1, m, 23);
            }
            assert(there >= here + step) by (nonlinear_arith)
                requires
                    there == single_magnitude(m) * unit,
                    single_magnitude(m) >= single_magnitude(r + 1),
                    single_magnitude(r + 1) * unit >= here + step,
            ;
        } else {
            let below = (r - 1) as nat;
            if m < below {
                magnitude_increases(m, below, 23);
            }
            assert(there <= single_magnitude(below) * unit) by (nonlinear_arith)
                requires
                    there == single_magnitude(m) * unit,
                    single_magnitude(m) <= single_magnitude(below),
            ;
            if t > 0 && k == pow2(23) {
                magnitude_increases(below, r, 23);
                assert(single_magnitude(below) * unit < here) by (nonlinear_arith)
                    requires
                        single_magnitude(r) * unit == here,
                        single_magnitude(below) < single_magnitude(r),
                        unit > 0,
                ;
            } else {
                assert(k > 0) by (nonlinear_arith)
                    requires
                        r == t * 0x80_0000 + k,
                        r > 0,
                        t == 0 || k >= 0x80_0000,
                ;
                magnitude_of_steps(t, (k - 1) as nat, 23);
                assert(below == t * pow2(23) + (k - 1) as nat);
                assert((((k - 1) as nat) * pow2(t)) * unit == here - step) by (nonlinear_arith)
                    requires
                        here == k * (pow2(t) * unit),
                        step == pow2(t) * unit,
                        k > 0,
                ;
            }
        }
    }
}

/// The nearest pattern is unique: the conversions are functions of their argument.
pub proof fn nearest_single_is_unique(a: nat, b: nat, value: nat, unit: nat)
    requires
        unit > 0,
        nearest_single(a, value, unit),
        nearest_single(b, value, unit),
    ensures
        a == b,
{
    if a != b {
        assert(rounding_error(a, value, unit) == rounding_error(b, value, unit));
        let lo = if a < b {
            a
        } else {
            b
        };
        let hi = if a < b {
            b
        } else {
            a
        };
        let mid = lo + 1;
        magnitude_increases(lo, mid, 23);
        magnitude_increases(mid, hi, 23);
        assert(single_magnitude(lo) * unit < single_magnitude(mid) * unit < single_magnitude(hi)
            * unit) by (nonlinear_arith)
            requires
                single_magnitude(lo) < single_magnitude(mid) < single_magnitude(hi),
                unit > 0,
        ;
        assert(rounding_error(mid, value, unit) < rounding_error(lo, value, unit));
    }
}

/// A single-precision number has one double-precision pattern.
pub proof fn double_of_single_is_unique(x: u32, a: u64, b: u64)
    requires
        double_of_single(x, a),
        double_of_single(x, b),
    ensures
        a == b,
{
    let (m, n) = ((a % DOUBLE_SIGN) as nat, (b % DOUBLE_SIGN) as nat);
    if m < n {
        magnitude_increases(m, n, 52);
    } else if n < m {
        magnitude_increases(n, m, 52);
    }
}

/// A double-precision number is narrowed to one single-precision pattern.
pub proof fn single_of_double_is_unique(x: u64, a: u32, b: u32)
    requires
        single_of_double(x, a),
        single_of_double(x, b),
    ensures
        a == b,
{
    if x % DOUBLE_SIGN < DOUBLE_INFINITY {
        lemma_pow2_pos(925);
        nearest_single_is_unique(
            (a % SINGLE_SIGN) as nat,
            (b % SINGLE_SIGN) as nat,
            double_magnitude((x % DOUBLE_SIGN) as nat),
            pow2(925),
        );
    }
}

/// An integer has one single-precision pattern.
pub proof fn single_of_integer_is_unique(x: int, a: u32, b: u32)
    requires
        single_of_integer(x, a),
        single_of_integer(x, b),
    ensures
        a == b,
{
    nearest_single_is_unique(
        (a % SINGLE_SIGN) as nat,
        (b % SINGLE_SIGN) as nat,
        distance(x, 0) as nat * pow2(149),
        1,
    );
}

/// A half-precision number has one single-precision pattern.
pub proof fn single_of_half_is_unique(x: u16, a: u32, b: u32)
    requires
        single_of_half(x, a),
        single_of_half(x, b),
    ensures
        a == b,
{
    let (m, n) = ((a % SINGLE_SIGN) as nat, (b % SINGLE_SIGN) as nat);
    if m < n {
        magnitude_increases(m, n, 23);
    } else if n < m {
        magnitude_increases(n, m, 23);
    }
}

/// A single-precision number that was widened to double precision comes back from narrowing
/// as it was.
pub proof fn narrowing_undoes_widening(x: u32, wide: u64, r: u32)
    requires
        x % SINGLE_SIGN <= SINGLE_INFINITY,
        double_of_single(x, wide),
        single_of_double(wide, r),
    ensures
        r == x,
{
    let m = (x % SINGLE_SIGN) as nat;
    if m < SINGLE_INFINITY {
        let value = single_magnitude(m) * pow2(925);
        lemma_pow2_pos(925);
        assert forall|other: nat| other <= SINGLE_INFINITY && other != m implies rounding_error(
            m,
            value,
            pow2(925),
        ) < #[trigger] rounding_error(other, value, pow2(925)) by {
            if other < m {
                magnitude_increases(other, m, 23);
            } else {
                magnitude_increases(m, other, 23);
            }
            assert(single_magnitude(other) * pow2(925) != value) by (nonlinear_arith)
                requires
                    value == single_magnitude(m) * pow2(925),
                    single_magnitude(other) != single_magnitude(m),
                    pow2(925) > 0,
            ;
        }
        assert(nearest_single(m, value, pow2(925)));
        nearest_single_is_unique(m, (r % SINGLE_SIGN) as nat, value, pow2(925));
    }
}

/// An integer of at most twenty-four bits is held exactly.
pub proof fn small_integers_are_exact(x: int, r: u32)
    requires
        -0x100_0000 <= x <= 0x100_0000,
        single_of_integer(x, r),
    ensures
        single_magnitude((r % SINGLE_SIGN) as nat) == distance(x, 0) * pow2(149),
{
    let n = distance(x, 0) as nat;
    let value = n * pow2(149);
    lemma2_to64();
    lemma_pow2_pos(149);
    let exact = exact_pattern(n);
    nearest_single_is_unique(exact, (r % SINGLE_SIGN) as nat, value, 1);
}

/// The pattern of an integer of at most twenty-four bits.
proof fn exact_pattern(n: nat) -> (pattern: nat)
    requires
        n <= 0x100_0000,
    ensures
        single_magnitude(pattern) == n * pow2(149),
        nearest_single(pattern, n * pow2(149), 1),
{
    lemma2_to64();
    if n == 0 {
        assert(0 * pow2(149) == 0) by (nonlinear_arith);
        magnitude_of_steps(0, 0, 23);
        nearest_from_steps(0, 0, 0, 1);
        return 0;
    }
    // Shift the leading one to its place.
    let (shift, k) = normalized(n, 0);
    let t = (149 - shift) as nat;
    lemma_pow2_adds(shift, t);
    lemma_pow2_pos(t);
    assert(k * pow2(t) == n * pow2(149)) by (nonlinear_arith)
        requires
            k == n * pow2(shift),
            pow2(149) == pow2(shift) * pow2(t),
    ;
    magnitude_of_steps(t, k, 23);
    assert(pow2(23) * (pow2(t) * 1) <= n * pow2(149)) by (nonlinear_arith)
        requires
            k * pow2(t) == n * pow2(149),
            k >= pow2(23),
            pow2(t) > 0,
    ;
    assert(k * (pow2(t) * 1) == n * pow2(149));
    assert(t * 0x80_0000 + k <= 149 * 0x80_0000 + 0x100_0000) by (nonlinear_arith)
        requires
            t <= 149,
            k <= 0x100_0000,
    ;
    nearest_from_steps(t, k, n * pow2(149), 1);
    t * pow2(23) + k
}

proof fn normalized(n: nat, shift: nat) -> (r: (nat, nat))
    requires
        0 < n,
        n * pow2(shift) <= 0x100_0000,
        shift <= 24,
    ensures
        r.0 <= 24,
        r.1 == n * pow2(r.0),
        pow2(23) <= r.1 <= 2 * pow2(23),
    decreases 24 - shift,
{
    lemma2_to64();
    let k = n * pow2(shift);
    if k >= 0x80_0000 {
        (shift, k)
    } else {
        assert(shift < 23) by {
            if shift >= 23 {
                if shift == 24 {
                    assert(k >= 0x100_0000) by (nonlinear_arith)
                        requires
                            k == n * 0x100_0000,
                            n > 0,
                    ;
                } else {
                    assert(k >= 0x80_0000) by (nonlinear_arith)
                        requires
                            k == n * 0x80_0000,
                            n > 0,
                    ;
                }
            }
        }
        lemma_pow2_unfold(shift + 1);
        assert(n * pow2(shift + 1) == 2 * k) by (nonlinear_arith)
            requires
                pow2(shift + 1) == 2 * pow2(shift),
                k == n * pow2(shift),
        ;
        normalized(n, shift + 1)
    }
}

/// How many bits `m` has, counted from its leading one.
fn bit_length(m: u64) -> (len: u32)
    requires
        m > 0,
    ensures
        1 <= len <= 64,
        pow2((len - 1) as nat) <= m < pow2(len as nat),
{
    let zeros: u32 = m.leading_zeros();
    proof {
        axiom_u64_leading_zeros(m);
        lemma2_to64();
        let top = (63 - zeros) as u64;
        lemma_u64_shr_is_div(m, top);
        assert(m >> top != 0) by {
            assert((m >> top) & 1u64 != 0u64);
            assert((m >> top) & 1u64 != 0u64 ==> m >> top != 0) by (bit_vector);
        }
        lemma_pow2_pos(top as nat);
        vstd::arithmetic::div_mod::lemma_fundamental_div_mod(m as int, pow2(top as nat) as int);
        assert(pow2(top as nat) <= m) by (nonlinear_arith)
            requires
                m as int == pow2(top as nat) * (m as int / pow2(top as nat) as int) + m as int
                    % pow2(top as nat) as int,
                m as int / pow2(top as nat) as int >= 1,
                m as int % pow2(top as nat) as int >= 0,
                pow2(top as nat) > 0,
        ;
        if zeros > 0 {
            let over = (64 - zeros) as u64;
            lemma_u64_shr_is_div(m, over);
            lemma_pow2_pos(over as nat);
            vstd::arithmetic::div_mod::lemma_fundamental_div_mod(
                m as int,
                pow2(over as nat) as int,
            );
            assert(m < pow2(over as nat));
        }
    }
    64 - zeros
}

/// A value of at least two to the power 128 is nearest to infinity.
proof fn nearest_is_infinity(value: nat, unit: nat)
    requires
        unit > 0,
        (pow2(23) * pow2(254)) * unit <= value,
    ensures
        nearest_single(SINGLE_INFINITY as nat, value, unit),
{
    lemma2_to64();
    magnitude_of_steps(254, pow2(23), 23);
    let r = SINGLE_INFINITY as nat;
    assert forall|m: nat| m <= SINGLE_INFINITY && m != r implies rounding_error(r, value, unit)
        < #[trigger] rounding_error(m, value, unit) by {
        magnitude_increases(m, r, 23);
        assert(single_magnitude(m) * unit < single_magnitude(r) * unit) by (nonlinear_arith)
            requires
                single_magnitude(m) < single_magnitude(r),
                unit > 0,
        ;
    }
}

/// Dividing by a power of two, with the quotient rounded to the nearest integer and to the even
/// one of two.
fn divide_rounding(m: u64, drop: u32) -> (k: u64)
    requires
        0 < drop <= 63,
    ensures
        2 * distance((k * pow2(drop as nat)) as int, m as int) <= pow2(drop as nat),
        2 * distance((k * pow2(drop as nat)) as int, m as int) == pow2(drop as nat) ==> k % 2 == 0,
        k <= m / 2 + 1,
{
    let d: u64 = 1u64 << drop;
    proof {
        lemma2_to64();
        lemma_pow2_strictly_increases(drop as nat, 64);
        lemma_u64_shl_is_mul(1, drop as u64);
        lemma_pow2_unfold(drop as nat);
        lemma_pow2_pos((drop - 1) as nat);
    }
    assert(d == pow2(drop as nat));
    let quotient: u64 = m / d;
    let rest: u64 = m % d;
    let half: u64 = d / 2;
    proof {
        vstd::arithmetic::div_mod::lemma_fundamental_div_mod(m as int, d as int);
        assert(quotient <= m / 2) by (nonlinear_arith)
            requires
                m == d * quotient + rest,
                d >= 2,
                rest >= 0,
        ;
        assert((quotient + 1) * d == d * quotient + d) by (nonlinear_arith);
        assert(quotient * d == d * quotient) by (nonlinear_arith);
    }
    if rest > half || (rest == half && quotient % 2 == 1) {
        quotient + 1
    } else {
        quotient
    }
}

/// The unsigned single-precision pattern nearest to `m` times two to the power `p`, in units of
/// which two to the power `u` make the smallest single-precision number.
fn round_to_single(m: u64, p: u32, u: u32) -> (r: u32)
    requires
        m <= 0x8000_0000_0000_0000,
        p <= 4000,
        u <= 4000,
    ensures
        nearest_single(r as nat, m as nat * pow2(p as nat), pow2(u as nat)),
        m < 0x100_0000 && u <= p <= u + 253 ==> r < SINGLE_INFINITY && single_magnitude(r as nat)
            * pow2(u as nat) == m as nat * pow2(p as nat),
{
    let ghost value = m as nat * pow2(p as nat);
    let ghost unit = pow2(u as nat);
    proof {
        lemma2_to64();
        lemma2_to64_rest();
        lemma_pow2_pos(p as nat);
        lemma_pow2_pos(u as nat);
    }
    if m == 0 {
        proof {
            assert(value == 0) by (nonlinear_arith)
                requires
                    value == m as nat * pow2(p as nat),
                    m == 0,
            ;
            assert(0 * (pow2(0) * unit) == 0) by (nonlinear_arith);
            nearest_from_steps(0, 0, value, unit);
            magnitude_of_steps(0, 0, 23);
            assert(0 * unit == 0) by (nonlinear_arith);
        }
        return 0;
    }
    let len: u32 = bit_length(m);
    // The exponent of the last bit that the result has room for.
    let t: u32 = if p + len > u + 24 {
        p + len - u - 24
    } else {
        0
    };
    let ghost step = pow2(t as nat) * unit;
    proof {
        lemma_pow2_pos(t as nat);
        lemma_pow2_adds(u as nat, t as nat);
        assert(step == pow2((u + t) as nat)) by (nonlinear_arith)
            requires
                step == pow2(t as nat) * unit,
                pow2((u + t) as nat) == unit * pow2(t as nat),
        ;
        if t > 0 {
            // The value has its leading one where the result has.
            lemma_pow2_adds((len - 1) as nat, p as nat);
            lemma_pow2_adds(23, (u + t) as nat);
            assert((len - 1) as nat + p as nat == 23 + (u + t) as nat);
            assert(pow2(23) * step <= value) by (nonlinear_arith)
                requires
                    value == m as nat * pow2(p as nat),
                    pow2((len - 1) as nat) <= m as nat,
                    pow2((len - 1) as nat) * pow2(p as nat) == pow2(23) * step,
            ;
        }
    }
    if t > 253 {
        proof {
            if t > 254 {
                lemma_pow2_strictly_increases(254, t as nat);
            }
            assert((pow2(23) * pow2(254)) * unit <= value) by (nonlinear_arith)
                requires
                    pow2(254) <= pow2(t as nat),
                    step == pow2(t as nat) * unit,
                    pow2(23) * step <= value,
            ;
            nearest_is_infinity(value, unit);
            if m < 0x100_0000 && len > 24 {
                lemma_pow2_strictly_increases(23, len as nat);
                if len > 25 {
                    lemma_pow2_strictly_increases(24, (len - 1) as nat);
                }
            }
        }
        return SINGLE_INFINITY;
    }
    let k: u64;
    if p >= u + t {
        let lift: u32 = p - u - t;
        proof {
            lemma_pow2_adds(len as nat, lift as nat);
            lemma_pow2_pos(lift as nat);
            if len + lift < 24 {
                lemma_pow2_strictly_increases((len + lift) as nat, 24);
            }
            assert(m * pow2(lift as nat) < pow2((len + lift) as nat)) by (nonlinear_arith)
                requires
                    m < pow2(len as nat),
                    pow2((len + lift) as nat) == pow2(len as nat) * pow2(lift as nat),
                    pow2(lift as nat) > 0,
            ;
            lemma_u64_shl_is_mul(m, lift as u64);
            lemma_pow2_adds(lift as nat, (u + t) as nat);
            assert(pow2(p as nat) == pow2(lift as nat) * step);
        }
        k = m << lift;
        proof {
            assert(k * step == value) by (nonlinear_arith)
                requires
                    k == m * pow2(lift as nat),
                    pow2(p as nat) == pow2(lift as nat) * step,
                    value == m as nat * pow2(p as nat),
            ;
        }
    } else {
        let drop: u32 = u + t - p;
        proof {
            lemma_pow2_adds(drop as nat, p as nat);
            assert(step == pow2(drop as nat) * pow2(p as nat));
        }
        if drop <= 63 {
            k = divide_rounding(m, drop);
        } else {
            k = 0;
            proof {
                lemma_pow2_unfold(drop as nat);
                if drop > 64 {
                    lemma_pow2_strictly_increases(63, (drop - 1) as nat);
                }
            }
        }
        proof {
            let pd = pow2(drop as nat);
            let pp = pow2(p as nat);
            assert(2 * distance((k * pd) as int, m as int) <= pd);
            assert(2 * distance((k * step) as int, value as int) <= step && (2 * distance(
                (k * step) as int,
                value as int,
            ) == step ==> k % 2 == 0)) by {
                let off = distance((k * pd) as int, m as int);
                assert(k * step == (k * pd) * pp) by (nonlinear_arith)
                    requires
                        step == pd * pp,
                ;
                assert(distance((k * step) as int, value as int) == off * pp) by (nonlinear_arith)
                    requires
                        k * step == (k * pd) * pp,
                        value == m as nat * pp,
                        pp > 0,
                        off == distance((k * pd) as int, m as int),
                ;
                assert(2 * (off * pp) <= step) by (nonlinear_arith)
                    requires
                        step == pd * pp,
                        2 * off <= pd,
                        pp > 0,
                ;
                assert(2 * (off * pp) == step ==> 2 * off == pd) by (nonlinear_arith)
                    requires
                        step == pd * pp,
                        2 * off <= pd,
                        pp > 0,
                ;
            }
        }
    }
    assert(2 * distance((k * step) as int, value as int) <= step);
    assert(2 * distance((k * step) as int, value as int) == step ==> k % 2 == 0) by {
        lemma_pow2_pos((u + t) as nat);
    }
    proof {
        // The value lies within what twenty-four bits of steps can hold.
        lemma_pow2_adds(len as nat, p as nat);
        lemma_pow2_adds(24, (u + t) as nat);
        lemma_pow2_pos((u + t) as nat);
        if len + p < 24 + u + t {
            lemma_pow2_strictly_increases((len + p) as nat, (24 + u + t) as nat);
        }
        assert(value < pow2(24) * step) by (nonlinear_arith)
            requires
                value == m as nat * pow2(p as nat),
                m < pow2(len as nat),
                pow2(len as nat) * pow2(p as nat) <= pow2(24) * step,
                pow2(p as nat) > 0,
        ;
        assert(k <= pow2(24)) by (nonlinear_arith)
            requires
                2 * distance((k * step) as int, value as int) <= step,
                value < pow2(24) * step,
                step > 0,
        ;
        if t > 0 {
            assert(k >= pow2(23)) by (nonlinear_arith)
                requires
                    2 * distance((k * step) as int, value as int) <= step,
                    value >= pow2(23) * step,
                    step > 0,
            ;
        }
        nearest_from_steps(t as nat, k as nat, value, unit);
        magnitude_of_steps(t as nat, k as nat, 23);
        if m < 0x100_0000 && u <= p <= u + 253 {
            if len > 24 {
                if len > 25 {
                    lemma_pow2_strictly_increases(24, (len - 1) as nat);
                }
                assert(false);
            }
            assert(p >= u + t);
            assert(k * step == value);
            assert(k < pow2(24)) by (nonlinear_arith)
                requires
                    k * step == value,
                    value < pow2(24) * step,
            ;
            assert(single_magnitude((t * 0x80_0000 + k) as nat) * unit == value) by (nonlinear_arith)
                requires
                    single_magnitude((t * 0x80_0000 + k) as nat) == k * pow2(t as nat),
                    step == pow2(t as nat) * unit,
                    k * step == value,
            ;
        }
    }
    t * 0x80_0000 + k as u32
}

/// The integer `x` as a single-precision number, rounded to the nearest.
pub fn single_from_i64(x: i64) -> (r: u32)
    ensures
        single_of_integer(x as int, r),
{
    proof {
        lemma2_to64();
    }
    if x < 0 {
        let m: u64 = (-(x + 1)) as u64 + 1;
        SINGLE_SIGN + round_to_single(m, 149, 0)
    } else {
        round_to_single(x as u64, 149, 0)
    }
}

/// The double-precision number `x` in single precision, rounded to the nearest.
pub fn single_from_double(x: u64) -> (r: u32)
    ensures
        single_of_double(x, r),
{
    let unsigned: u64 = x % DOUBLE_SIGN;
    let sign: u32 = if x >= DOUBLE_SIGN {
        SINGLE_SIGN
    } else {
        0
    };
    if unsigned > DOUBLE_INFINITY {
        return sign + 0x7fc0_0000 + (unsigned / 0x2000_0000 % 0x40_0000) as u32;
    }
    if unsigned == DOUBLE_INFINITY {
        return sign + SINGLE_INFINITY;
    }
    let exponent: u64 = unsigned / 0x10_0000_0000_0000;
    let mantissa: u64 = unsigned % 0x10_0000_0000_0000;
    proof {
        lemma2_to64();
        lemma2_to64_rest();
    }
    if exponent == 0 {
        sign + round_to_single(mantissa, 0, 925)
    } else {
        sign + round_to_single(0x10_0000_0000_0000 + mantissa, (exponent - 1) as u32, 925)
    }
}

/// The half-precision number `x` in single precision.
pub fn single_from_half(x: u16) -> (r: u32)
    ensures
        single_of_half(x, r),
{
    let unsigned: u16 = x % HALF_SIGN;
    let sign: u32 = if x >= HALF_SIGN {
        SINGLE_SIGN
    } else {
        0
    };
    if unsigned > HALF_INFINITY {
        return sign + 0x7fc0_0000 + (unsigned % 0x200) as u32 * 0x2000;
    }
    if unsigned == HALF_INFINITY {
        return sign + SINGLE_INFINITY;
    }
    let exponent: u16 = unsigned / 0x400;
    let mantissa: u16 = unsigned % 0x400;
    proof {
        lemma2_to64();
    }
    if exponent == 0 {
        sign + round_to_single(mantissa as u64, 125, 0)
    } else {
        proof {
            let e = (exponent - 1) as nat;
            lemma_pow2_adds(e, 125);
            assert(half_magnitude(unsigned as nat) * pow2(125) == (0x400 + mantissa) as nat * pow2(
                e + 125,
            )) by (nonlinear_arith)
                requires
                    half_magnitude(unsigned as nat) == (0x400 + mantissa) as nat * pow2(e),
                    pow2(e + 125) == pow2(e) * pow2(125),
            ;
        }
        sign + round_to_single((0x400 + mantissa) as u64, 124 + exponent as u32, 0)
    }
}

/// The single-precision number `x` in double precision.
pub fn double_from_single(x: u32) -> (r: u64)
    ensures
        double_of_single(x, r),
        r == widened(x),
{
    let r: u64 = widen(x);
    proof {
        double_of_single_is_unique(x, r, widened(x));
    }
    r
}

fn widen(x: u32) -> (r: u64)
    ensures
        double_of_single(x, r),
{
    let unsigned: u32 = x % SINGLE_SIGN;
    let sign: u64 = if x >= SINGLE_SIGN {
        DOUBLE_SIGN
    } else {
        0
    };
    if unsigned > SINGLE_INFINITY {
        return sign + 0x7ff8_0000_0000_0000 + (unsigned % 0x40_0000) as u64 * 0x2000_0000;
    }
    if unsigned == SINGLE_INFINITY {
        return sign + DOUBLE_INFINITY;
    }
    let exponent: u32 = unsigned / 0x80_0000;
    let mantissa: u32 = unsigned % 0x80_0000;
    proof {
        lemma2_to64();
        lemma2_to64_rest();
    }
    if exponent == 0 && mantissa == 0 {
        proof {
            assert(0 * pow2(925) == 0) by (nonlinear_arith);
            magnitude_of_steps(0, 0, 52);
        }
        return sign;
    }
    let m: u64 = if exponent == 0 {
        mantissa as u64
    } else {
        0x80_0000 + mantissa as u64
    };
    let p: u32 = if exponent == 0 {
        0
    } else {
        exponent - 1
    };
    assert(single_magnitude(unsigned as nat) == m as nat * pow2(p as nat));
    let len: u32 = bit_length(m);
    proof {
        if len > 24 {
            if len > 25 {
                lemma_pow2_strictly_increases(24, (len - 1) as nat);
            }
            assert(false);
        }
    }
    let lift: u32 = 53 - len;
    proof {
        lemma_pow2_adds((len - 1) as nat, lift as nat);
        lemma_pow2_adds(len as nat, lift as nat);
        lemma_pow2_pos(lift as nat);
        assert(pow2(52) <= m * pow2(lift as nat) < pow2(53)) by (nonlinear_arith)
            requires
                pow2((len - 1) as nat) <= m < pow2(len as nat),
                pow2((len - 1) as nat) * pow2(lift as nat) == pow2(52),
                pow2(len as nat) * pow2(lift as nat) == pow2(53),
                pow2(lift as nat) > 0,
        ;
        lemma_u64_shl_is_mul(m, lift as u64);
    }
    let k: u64 = m << lift;
    let t: u32 = p + 925 - lift;
    proof {
        magnitude_of_steps(t as nat, k as nat, 52);
        lemma_pow2_adds(lift as nat, t as nat);
        lemma_pow2_adds(p as nat, 925);
        assert(k * pow2(t as nat) == (m as nat * pow2(p as nat)) * pow2(925)) by (nonlinear_arith)
            requires
                k == m * pow2(lift as nat),
                pow2(lift as nat) * pow2(t as nat) == pow2(p as nat) * pow2(925),
        ;
    }
    sign + (t as u64 * 0x10_0000_0000_0000 + k)
}

} // verus!
