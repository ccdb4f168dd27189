//! Binary64 numbers held as their 64-bit patterns.
//!
//! The library never computes in floating point. A number is the pattern
//! `sign | exponent (11 bits) | fraction (52 bits)`, and what the grouping
//! rules need of it (whether it is a number at all, whether two numbers are the
//! same, whether they differ by no more than a tolerance) is decided on
//! integers, exactly.
use vstd::arithmetic::power2::*;
use vstd::prelude::*;

verus! {

/// Two to the power 52: the weight of the implicit leading bit.
pub const FRACTION_RANGE: u64 = 0x10_0000_0000_0000;

/// Two to the power 63: the weight of the sign bit.
pub const SIGN_WEIGHT: u64 = 0x8000_0000_0000_0000;

/// Whether the sign bit is set.
pub open spec fn is_negative(b: u64) -> bool {
    b >= SIGN_WEIGHT
}

/// The exponent field, 0 to 2047.
pub open spec fn exponent_of(b: u64) -> int {
    ((b / FRACTION_RANGE) % 2048) as int
}

/// The fraction field, below two to the power 52.
pub open spec fn fraction_of(b: u64) -> int {
    (b % FRACTION_RANGE) as int
}

/// Whether the pattern is not a number.
pub open spec fn is_nan(b: u64) -> bool {
    exponent_of(b) == 2047 && fraction_of(b) != 0
}

/// Whether the pattern is plus or minus infinity.
pub open spec fn is_infinite(b: u64) -> bool {
    exponent_of(b) == 2047 && fraction_of(b) == 0
}

/// Whether the pattern is a finite number.
pub open spec fn is_finite(b: u64) -> bool {
    exponent_of(b) != 2047
}

/// The significand of a finite number as an integer below two to the power 53.
pub open spec fn mantissa_of(b: u64) -> int {
    if exponent_of(b) == 0 {
        fraction_of(b)
    } else {
        fraction_of(b) + FRACTION_RANGE
    }
}

/// The power of two by which the significand of a finite number is scaled,
/// counted from the smallest subnormal.
pub open spec fn shift_of(b: u64) -> nat {
    if exponent_of(b) == 0 {
        0
    } else {
        (exponent_of(b) - 1) as nat
    }
}

/// The significand with the number's sign.
pub open spec fn signed_mantissa(b: u64) -> int {
    if is_negative(b) {
        -mantissa_of(b)
    } else {
        mantissa_of(b)
    }
}

/// A finite number as an integer: its value multiplied by two to the power
/// 1074, which makes every finite binary64 number whole.
pub open spec fn scaled_value(b: u64) -> int {
    signed_mantissa(b) * pow2(shift_of(b))
}

/// Equality of two numbers as binary64 defines it: a value that is not a
/// number equals nothing, and the two zeros are equal.
pub open spec fn same_number(a: u64, b: u64) -> bool {
    &&& !is_nan(a)
    &&& !is_nan(b)
    &&& (a == b || (is_finite(a) && is_finite(b) && mantissa_of(a) == 0 && mantissa_of(b)
        == 0))
}

/// Whether two numbers are equal within a tolerance.
///
/// Two values that are not numbers are equal to each other and to nothing
/// else. Two finite numbers are equal when the distance between them, taken
/// exactly, is at most the tolerance; a tolerance that is not a number admits
/// nothing, and an infinite one admits everything if it is positive. An
/// infinite number is at infinite distance from every other number and at no
/// defined distance from itself, so it is equal to another number only under
/// the tolerance plus infinity, and never to itself.
pub open spec fn within_tolerance(a: u64, b: u64, tol: u64) -> bool {
    if is_nan(a) || is_nan(b) {
        is_nan(a) && is_nan(b)
    } else if is_nan(tol) {
        false
    } else if is_infinite(a) || is_infinite(b) {
        !(is_infinite(a) && is_infinite(b) && is_negative(a) == is_negative(b)) && is_infinite(
            tol,
        ) && !is_negative(tol)
    } else if is_infinite(tol) {
        !is_negative(tol)
    } else {
        let d = scaled_value(a) - scaled_value(b);
        (if d < 0 {
            -d
        } else {
            d
        }) <= scaled_value(tol)
    }
}

/// The sign of an integer: -1, 0 or 1.
pub open spec fn signum(x: int) -> int {
    if x < 0 {
        -1
    } else if x == 0 {
        0
    } else {
        1
    }
}

/// The parts of a pattern.
pub struct Decoded {
    pub negative: bool,
    pub exponent: u64,
    pub fraction: u64,
}

impl Decoded {
    /// What the parts say of the pattern they were taken from.
    pub open spec fn describes(&self, b: u64) -> bool {
        &&& self.negative == is_negative(b)
        &&& self.exponent == exponent_of(b)
        &&& self.fraction == fraction_of(b)
    }
}

/// Takes a pattern apart.
pub fn decode(b: u64) -> (d: Decoded)
    ensures
        d.describes(b),
        d.exponent < 2048,
        d.fraction < FRACTION_RANGE,
{
    Decoded {
        negative: b >= SIGN_WEIGHT,
        exponent: (b / FRACTION_RANGE) % 2048,
        fraction: b % FRACTION_RANGE,
    }
}

/// Whether the pattern is not a number.
pub fn bits_is_nan(b: u64) -> (r: bool)
    ensures
        r == is_nan(b),
{
    let d = decode(b);
    d.exponent == 2047 && d.fraction != 0
}

/// Whether two numbers are equal as binary64 defines it.
pub fn bits_same_number(a: u64, b: u64) -> (r: bool)
    ensures
        r == same_number(a, b),
{
    let da = decode(a);
    let db = decode(b);
    let nan_a = da.exponent == 2047 && da.fraction != 0;
    let nan_b = db.exponent == 2047 && db.fraction != 0;
    if nan_a || nan_b {
        false
    } else if a == b {
        true
    } else {
        da.exponent == 0 && da.fraction == 0 && db.exponent == 0 && db.fraction == 0
    }
}

proof fn lemma_pow2_values()
    ensures
        pow2(53) == 0x20_0000_0000_0000,
        pow2(54) == 0x40_0000_0000_0000,
        pow2(55) == 0x80_0000_0000_0000,
        pow2(64) == 0x1_0000_0000_0000_0000,
{
    lemma2_to64();
    lemma_pow2_adds(32, 21);
    lemma_pow2_adds(32, 22);
    lemma_pow2_adds(32, 23);
}

proof fn lemma_pow2_monotone(a: nat, b: nat)
    requires
        a <= b,
    ensures
        pow2(a) <= pow2(b),
        pow2(a) >= 1,
{
    lemma_pow2_pos(a);
    if a < b {
        lemma_pow2_strictly_increases(a, b);
    }
}

/// Two to the power `d`, for `d` up to 64.
fn small_power_of_two(d: u64) -> (r: i128)
    requires
        d <= 64,
    ensures
        r == pow2(d as nat),
        1 <= r <= 0x1_0000_0000_0000_0000,
{
    let mut r: i128 = 1;
    let mut i: u64 = 0;
    proof {
        lemma2_to64();
    }
    while i < d
        invariant
            i <= d,
            d <= 64,
            r == pow2(i as nat),
            1 <= r,
        decreases d - i,
    {
        proof {
            lemma_pow2_unfold((i + 1) as nat);
            lemma_pow2_monotone((i + 1) as nat, 64);
            lemma_pow2_values();
        }
        r = r * 2;
        i += 1;
    }
    proof {
        lemma_pow2_monotone(d as nat, 64);
        lemma_pow2_values();
    }
    r
}

fn sign_of(x: i128) -> (s: i8)
    ensures
        s == signum(x as int),
{
    if x < 0 {
        -1
    } else if x == 0 {
        0
    } else {
        1
    }
}

/// The sign of `hi * 2^d + lo`, where `lo` is a significand.
fn sign_of_pair(hi: i128, d: u64, lo: i128) -> (s: i8)
    requires
        -0x1000_0000_0000_0000_0000_0000_0000 < hi < 0x1000_0000_0000_0000_0000_0000_0000,
        -0x20_0000_0000_0000 < lo < 0x20_0000_0000_0000,
    ensures
        s == signum(hi * pow2(d as nat) + lo),
{
    proof {
        lemma_pow2_values();
        lemma_pow2_pos(d as nat);
    }
    let ghost x = pow2(d as nat) as int;
    if hi == 0 {
        assert(hi * x + lo == lo) by (nonlinear_arith)
            requires
                hi == 0,
        ;
        sign_of(lo)
    } else if d >= 54 || hi >= 0x40_0000_0000_0000 || hi <= -0x40_0000_0000_0000 {
        proof {
            if d >= 54 {
                lemma_pow2_monotone(54, d as nat);
            }
            assert(signum(hi * x + lo) == signum(hi as int)) by (nonlinear_arith)
                requires
                    hi != 0,
                    x >= 1,
                    x >= 0x40_0000_0000_0000 || hi >= 0x40_0000_0000_0000 || hi
                        <= -0x40_0000_0000_0000,
                    -0x20_0000_0000_0000 < lo < 0x20_0000_0000_0000,
            ;
        }
        sign_of(hi)
    } else {
        let p = small_power_of_two(d);
        proof {
            lemma_pow2_monotone(d as nat, 53);
            assert(-0x40_0000_0000_0000 * 0x20_0000_0000_0000 <= hi * p
                <= 0x40_0000_0000_0000 * 0x20_0000_0000_0000) by (nonlinear_arith)
                requires
                    -0x40_0000_0000_0000 < hi < 0x40_0000_0000_0000,
                    1 <= p <= 0x20_0000_0000_0000,
            ;
        }
        sign_of(hi * p + lo)
    }
}

/// The sign of `m1 * 2^e1 + m2 * 2^e2 + m3 * 2^e3` for three significands
/// whose exponents do not increase.
fn sign_of_sorted_sum(m1: i128, e1: u64, m2: i128, e2: u64, m3: i128, e3: u64) -> (s: i8)
    requires
        e1 >= e2 >= e3,
        -0x20_0000_0000_0000 < m1 < 0x20_0000_0000_0000,
        -0x20_0000_0000_0000 < m2 < 0x20_0000_0000_0000,
        -0x20_0000_0000_0000 < m3 < 0x20_0000_0000_0000,
    ensures
        s == signum(m1 * pow2(e1 as nat) + m2 * pow2(e2 as nat) + m3 * pow2(e3 as nat)),
{
    let d1 = e1 - e2;
    let d2 = e2 - e3;
    let ghost y = pow2(d1 as nat) as int;
    let ghost x = pow2(d2 as nat) as int;
    let ghost z = pow2(e3 as nat) as int;
    let ghost inner = m1 * (y * x) + m2 * x + m3;
    proof {
        lemma_pow2_values();
        lemma_pow2_pos(d1 as nat);
        lemma_pow2_pos(d2 as nat);
        lemma_pow2_pos(e3 as nat);
        lemma_pow2_adds(d2 as nat, e3 as nat);
        lemma_pow2_adds(d1 as nat, e2 as nat);
        assert(pow2(e2 as nat) == x * z);
        assert(pow2(e1 as nat) == y * (x * z));
        let a = y * x;
        let t1 = m1 * a;
        let t2 = m2 * x;
        assert(y * (x * z) == a * z) by (nonlinear_arith)
            requires
                a == y * x,
        ;
        assert(m1 * (a * z) == t1 * z) by (nonlinear_arith)
            requires
                t1 == m1 * a,
        ;
        assert(m2 * (x * z) == t2 * z) by (nonlinear_arith)
            requires
                t2 == m2 * x,
        ;
        assert(t1 * z + t2 * z + m3 * z == (t1 + t2 + m3) * z) by (nonlinear_arith);
        assert(m1 * pow2(e1 as nat) + m2 * pow2(e2 as nat) + m3 * pow2(e3 as nat) == inner * z);
        assert(signum(inner * z) == signum(inner)) by (nonlinear_arith)
            requires
                z >= 1,
        ;
    }
    if m1 != 0 && d1 >= 55 {
        proof {
            lemma_pow2_monotone(55, d1 as nat);
            assert(signum(inner) == signum(m1 as int)) by (nonlinear_arith)
                requires
                    inner == m1 * (y * x) + m2 * x + m3,
                    m1 != 0,
                    y >= 0x80_0000_0000_0000,
                    x >= 1,
                    -0x20_0000_0000_0000 < m2 < 0x20_0000_0000_0000,
                    -0x20_0000_0000_0000 < m3 < 0x20_0000_0000_0000,
            ;
        }
        sign_of(m1)
    } else {
        let p: i128 = if m1 == 0 {
            m2
        } else {
            let q = small_power_of_two(d1);
            proof {
                lemma_pow2_monotone(d1 as nat, 54);
                assert(-0x20_0000_0000_0000 * 0x40_0000_0000_0000 <= m1 * q
                    <= 0x20_0000_0000_0000 * 0x40_0000_0000_0000) by (nonlinear_arith)
                    requires
                        -0x20_0000_0000_0000 < m1 < 0x20_0000_0000_0000,
                        1 <= q <= 0x40_0000_0000_0000,
                ;
            }
            m1 * q + m2
        };
        proof {
            assert(inner == p * x + m3) by (nonlinear_arith)
                requires
                    inner == m1 * (y * x) + m2 * x + m3,
                    p == m1 * y + m2,
            ;
        }
        sign_of_pair(p, d2, m3)
    }
}

/// The sign of `m1 * 2^e1 + m2 * 2^e2 + m3 * 2^e3` for three significands.
fn sign_of_sum(m1: i128, e1: u64, m2: i128, e2: u64, m3: i128, e3: u64) -> (s: i8)
    requires
        -0x20_0000_0000_0000 < m1 < 0x20_0000_0000_0000,
        -0x20_0000_0000_0000 < m2 < 0x20_0000_0000_0000,
        -0x20_0000_0000_0000 < m3 < 0x20_0000_0000_0000,
    ensures
        s == signum(m1 * pow2(e1 as nat) + m2 * pow2(e2 as nat) + m3 * pow2(e3 as nat)),
{
    if e1 >= e2 {
        if e2 >= e3 {
            sign_of_sorted_sum(m1, e1, m2, e2, m3, e3)
        } else if e1 >= e3 {
            sign_of_sorted_sum(m1, e1, m3, e3, m2, e2)
        } else {
            sign_of_sorted_sum(m3, e3, m1, e1, m2, e2)
        }
    } else {
        if e1 >= e3 {
            sign_of_sorted_sum(m2, e2, m1, e1, m3, e3)
        } else if e2 >= e3 {
            sign_of_sorted_sum(m2, e2, m3, e3, m1, e1)
        } else {
            sign_of_sorted_sum(m3, e3, m2, e2, m1, e1)
        }
    }
}

/// The signed significand and the scale of a finite number.
fn finite_parts(d: &Decoded, Ghost(b): Ghost<u64>) -> (r: (i128, u64))
    requires
        d.describes(b),
        d.exponent < 2047,
        d.fraction < FRACTION_RANGE,
    ensures
        r.0 == signed_mantissa(b),
        r.1 == shift_of(b),
        -0x20_0000_0000_0000 < r.0 < 0x20_0000_0000_0000,
{
    let m: i128 = if d.exponent == 0 {
        d.fraction as i128
    } else {
        d.fraction as i128 + FRACTION_RANGE as i128
    };
    let e: u64 = if d.exponent == 0 {
        0
    } else {
        d.exponent - 1
    };
    if d.negative {
        (-m, e)
    } else {
        (m, e)
    }
}

/// Whether two numbers are equal within a tolerance.
pub fn bits_within_tolerance(a: u64, b: u64, tol: u64) -> (r: bool)
    ensures
        r == within_tolerance(a, b, tol),
{
    let da = decode(a);
    let db = decode(b);
    let dt = decode(tol);
    let nan_a = da.exponent == 2047 && da.fraction != 0;
    let nan_b = db.exponent == 2047 && db.fraction != 0;
    if nan_a || nan_b {
        return nan_a && nan_b;
    }
    if dt.exponent == 2047 && dt.fraction != 0 {
        return false;
    }
    let tol_is_plus_infinity = dt.exponent == 2047 && !dt.negative;
    if da.exponent == 2047 || db.exponent == 2047 {
        let same_infinity = da.exponent == 2047 && db.exponent == 2047 && da.negative
            == db.negative;
        return !same_infinity && tol_is_plus_infinity;
    }
    if dt.exponent == 2047 {
        return tol_is_plus_infinity;
    }
    let (ma, ea) = finite_parts(&da, Ghost(a));
    let (mb, eb) = finite_parts(&db, Ghost(b));
    let (mt, et) = finite_parts(&dt, Ghost(tol));
    let forward = sign_of_sum(ma, ea, -mb, eb, -mt, et);
    let backward = sign_of_sum(mb, eb, -ma, ea, -mt, et);
    proof {
        let sa = scaled_value(a);
        let sb = scaled_value(b);
        let st = scaled_value(tol);
        assert((-mb) * pow2(eb as nat) == -sb) by (nonlinear_arith)
            requires
                sb == mb * pow2(eb as nat),
        ;
        assert((-ma) * pow2(ea as nat) == -sa) by (nonlinear_arith)
            requires
                sa == ma * pow2(ea as nat),
        ;
        assert((-mt) * pow2(et as nat) == -st) by (nonlinear_arith)
            requires
                st == mt * pow2(et as nat),
        ;
    }
    forward <= 0 && backward <= 0
}

/// Whether a number is replaced by the nearest multiple of the tolerance
/// before it is hashed: both are finite, the tolerance is above zero, and the
/// number's scale is at most 60 binary places above the tolerance's. Any
/// other number is hashed by its own bit pattern.
pub open spec fn rounds_to_multiple(bits: u64, tol: u64) -> bool {
    &&& is_finite(bits)
    &&& is_finite(tol)
    &&& !is_negative(tol)
    &&& mantissa_of(tol) > 0
    &&& shift_of(bits) <= shift_of(tol) + 60
}

/// By how many binary places the first scale is above the second; zero where
/// it is not above it.
pub open spec fn places_above(a: nat, b: nat) -> nat {
    if a >= b {
        (a - b) as nat
    } else {
        0
    }
}

/// How many times the tolerance goes into the magnitude of a number, rounded
/// to the nearest whole count, a half rounded up: the index of the nearest
/// multiple of the tolerance.
pub open spec fn multiple_index(bits: u64, tol: u64) -> nat {
    let numerator = mantissa_of(bits) * pow2(places_above(shift_of(bits), shift_of(tol)));
    let denominator = mantissa_of(tol) * pow2(places_above(shift_of(tol), shift_of(bits)));
    ((2 * numerator + denominator) / (2 * denominator)) as nat
}

/// What stands for a number in a hash.
pub struct NumberKey {
    /// Whether the number was replaced by a multiple of the tolerance.
    pub rounded: bool,
    /// Whether the multiple is below zero.
    pub negative: bool,
    /// The index of the multiple; zero where the number was not replaced.
    pub index: u128,
    /// The number's own bit pattern where it was not replaced, else zero.
    pub raw: u64,
}

/// What stands for a number in a hash under a tolerance.
pub open spec fn number_key(bits: u64, tol: u64) -> NumberKey {
    if rounds_to_multiple(bits, tol) {
        NumberKey {
            rounded: true,
            negative: is_negative(bits) && multiple_index(bits, tol) > 0,
            index: multiple_index(bits, tol) as u128,
            raw: 0,
        }
    } else {
        NumberKey { rounded: false, negative: false, index: 0, raw: bits }
    }
}

/// Computes what stands for a number in a hash under a tolerance.
pub fn bits_number_key(bits: u64, tol: u64) -> (r: NumberKey)
    ensures
        r == number_key(bits, tol),
        rounds_to_multiple(bits, tol) ==> multiple_index(bits, tol)
            < 0x100_0000_0000_0000_0000_0000_0000_0000,
{
    let df = decode(bits);
    let dt = decode(tol);
    let raw = NumberKey { rounded: false, negative: false, index: 0, raw: bits };
    if df.exponent == 2047 || dt.exponent == 2047 || dt.negative {
        return raw;
    }
    let (mf_signed, ef) = finite_parts(&df, Ghost(bits));
    let (mt, et) = finite_parts(&dt, Ghost(tol));
    if mt == 0 || ef > et + 60 {
        return raw;
    }
    let mf: i128 = if mf_signed < 0 {
        -mf_signed
    } else {
        mf_signed
    };
    let ghost up = places_above(ef as nat, et as nat);
    let ghost down = places_above(et as nat, ef as nat);
    let ghost numerator = mf * pow2(up);
    let ghost denominator = mt * pow2(down);
    proof {
        lemma_pow2_pos(up);
        lemma_pow2_pos(down);
        lemma_pow2_values();
        lemma2_to64();
    }
    if et > ef + 64 {
        proof {
            lemma_pow2_monotone(64, down);
            assert(2 * numerator + denominator < 2 * denominator) by (nonlinear_arith)
                requires
                    numerator == mf * pow2(up),
                    pow2(up) == 1,
                    0 <= mf < 0x20_0000_0000_0000,
                    denominator == mt * pow2(down),
                    mt >= 1,
                    pow2(down) >= 0x1_0000_0000_0000_0000,
            ;
            assert(0 <= 2 * numerator + denominator) by (nonlinear_arith)
                requires
                    numerator == mf * pow2(up),
                    pow2(up) == 1,
                    0 <= mf,
                    denominator == mt * pow2(down),
                    mt >= 1,
                    pow2(down) >= 1,
            ;
            vstd::arithmetic::div_mod::lemma_basic_div(
                2 * numerator + denominator,
                2 * denominator,
            );
        }
        return NumberKey { rounded: true, negative: false, index: 0, raw: 0 };
    }
    let scale_up = small_power_of_two(if ef >= et {
        ef - et
    } else {
        0
    });
    let scale_down = small_power_of_two(if et > ef {
        et - ef
    } else {
        0
    });
    proof {
        lemma_pow2_monotone(up, 60);
        lemma_pow2_monotone(down, 64);
        lemma_pow2_adds(32, 28);
        lemma2_to64();
        assert(pow2(60) == 0x1000_0000_0000_0000);
        assert(0 <= mf * scale_up <= 0x20_0000_0000_0000 * 0x1000_0000_0000_0000)
            by (nonlinear_arith)
            requires
                0 <= mf < 0x20_0000_0000_0000,
                1 <= scale_up <= 0x1000_0000_0000_0000,
        ;
        assert(1 <= mt * scale_down <= 0x20_0000_0000_0000 * 0x1_0000_0000_0000_0000)
            by (nonlinear_arith)
            requires
                1 <= mt < 0x20_0000_0000_0000,
                1 <= scale_down <= 0x1_0000_0000_0000_0000,
        ;
    }
    let num: u128 = (mf * scale_up) as u128;
    let den: u128 = (mt * scale_down) as u128;
    let index: u128 = (2 * num + den) / (2 * den);
    proof {
        assert(index <= 2 * num + den) by (nonlinear_arith)
            requires
                index == (2 * num + den) / (2 * den),
                den >= 1,
        ;
    }
    NumberKey { rounded: true, negative: df.negative && index > 0, index, raw: 0 }
}

/// Whether the second tolerance for numbers is at least as wide as the first:
/// it is plus infinity, or both are finite and the second is not the smaller.
pub open spec fn number_tolerance_widened(narrow: u64, wide: u64) -> bool {
    ||| (is_infinite(wide) && !is_negative(wide))
    ||| (is_finite(narrow) && is_finite(wide) && scaled_value(narrow) <= scaled_value(wide))
}

/// Two numbers that are equal within a tolerance are equal within any wider
/// one.
pub proof fn lemma_within_wider_tolerance(a: u64, b: u64, narrow: u64, wide: u64)
    requires
        within_tolerance(a, b, narrow),
        number_tolerance_widened(narrow, wide),
    ensures
        within_tolerance(a, b, wide),
{
}

} // verus!
