//! The rendering of a binary64 number with six decimals, computed on
//! integers: the number's exact value is rounded to the nearest millionth, a
//! tie to the even one, and written in decimal.
use crate::float_bits::{
    decode, is_infinite, is_nan, is_negative, mantissa_of, shift_of, FRACTION_RANGE,
};
use crate::text::{append_decimal, decimal_text, digit_char, digit_to_char, push_char};
use vstd::arithmetic::div_mod::{
    lemma_basic_div, lemma_div_is_ordered_by_denominator, lemma_div_multiples_vanish,
    lemma_mod_multiples_basic, lemma_small_mod,
};
use vstd::arithmetic::power2::{
    lemma2_to64, lemma_pow2_adds, lemma_pow2_pos, lemma_pow2_strictly_increases,
    lemma_pow2_unfold, pow2,
};
use vstd::prelude::*;
use vstd::string::*;

verus! {

/// The number of millionths in one.
pub const MICRO: u64 = 1_000_000;

/// The scale at which a number is whole: numbers of this scale and above have
/// no fraction.
pub const WHOLE_SHIFT: u64 = 1074;

/// The quotient of two numbers rounded to the nearest whole number, a tie to
/// the even one.
pub open spec fn round_half_even(a: nat, d: nat) -> nat {
    let q = a / d;
    let r = a % d;
    if 2 * r < d {
        q
    } else if 2 * r > d {
        q + 1
    } else if q % 2 == 0 {
        q
    } else {
        q + 1
    }
}

/// The magnitude of a finite number in millionths, rounded to the nearest
/// whole number of them, a tie to the even one.
pub open spec fn micros_of(bits: u64) -> nat {
    if shift_of(bits) >= WHOLE_SHIFT {
        (mantissa_of(bits) * pow2((shift_of(bits) - WHOLE_SHIFT) as nat) * MICRO) as nat
    } else {
        round_half_even(
            (mantissa_of(bits) * MICRO) as nat,
            pow2((WHOLE_SHIFT - shift_of(bits)) as nat),
        )
    }
}

/// A number below a million in six digits.
pub open spec fn six_digits(n: nat) -> Seq<char> {
    seq![
        digit_char((n / 100000 % 10) as int),
        digit_char((n / 10000 % 10) as int),
        digit_char((n / 1000 % 10) as int),
        digit_char((n / 100 % 10) as int),
        digit_char((n / 10 % 10) as int),
        digit_char((n % 10) as int),
    ]
}

/// The rendering of a number with six decimals: `NaN` for what is not a
/// number, `inf` for infinity, else the whole part in decimal, a point and
/// six digits; a minus sign in front where the sign bit is set, but for what
/// is not a number.
pub open spec fn number_text(bits: u64) -> Seq<char> {
    if is_nan(bits) {
        "NaN"@
    } else if is_infinite(bits) {
        if is_negative(bits) {
            "-inf"@
        } else {
            "inf"@
        }
    } else {
        (if is_negative(bits) {
            seq!['-']
        } else {
            Seq::empty()
        }) + decimal_text(micros_of(bits) / (MICRO as nat)) + seq!['.'] + six_digits(
            micros_of(bits) % (MICRO as nat),
        )
    }
}

/// Whether every item is a decimal digit.
pub open spec fn digits_valid(d: Seq<u8>) -> bool {
    forall|i: int| 0 <= i < d.len() ==> #[trigger] d[i] < 10
}

/// The number that decimal digits write, the least significant first.
pub open spec fn digits_number(d: Seq<u8>) -> nat
    decreases d.len(),
{
    if d.len() == 0 {
        0
    } else {
        d[0] as nat + 10 * digits_number(d.drop_first())
    }
}

/// The text of decimal digits given the least significant first: the most
/// significant comes first in the text.
pub open spec fn digits_text(d: Seq<u8>) -> Seq<char>
    decreases d.len(),
{
    if d.len() == 0 {
        Seq::empty()
    } else {
        digits_text(d.drop_first()).push(digit_char(d[0] as int))
    }
}

/// The decimal digits of a number, the least significant first, without
/// leading zeros; the single digit 0 for zero.
pub open spec fn number_digits(n: nat) -> Seq<u8>
    decreases n,
{
    if n < 10 {
        seq![n as u8]
    } else {
        seq![(n % 10) as u8] + number_digits(n / 10)
    }
}

/// The digits of twice a number and a carry.
pub open spec fn doubled(d: Seq<u8>, carry: nat) -> Seq<u8>
    decreases d.len(),
{
    if d.len() == 0 {
        if carry > 0 {
            seq![carry as u8]
        } else {
            Seq::empty()
        }
    } else {
        seq![((2 * d[0] + carry) % 10) as u8] + doubled(
            d.drop_first(),
            ((2 * d[0] + carry) / 10) as nat,
        )
    }
}

/// The digits of a number write it, and the most significant is not zero
/// unless the number is zero.
pub proof fn lemma_number_digits(n: nat)
    ensures
        digits_valid(number_digits(n)),
        number_digits(n).len() >= 1,
        digits_number(number_digits(n)) == n,
        n > 0 ==> number_digits(n).last() != 0,
    decreases n,
{
    let d = number_digits(n);
    if n < 10 {
        assert(d.drop_first() =~= Seq::<u8>::empty());
        assert(digits_number(d.drop_first()) == 0);
        assert(digits_number(d) == d[0] as nat + 10 * digits_number(d.drop_first()));
    } else {
        lemma_number_digits(n / 10);
        let rest = number_digits(n / 10);
        assert(d.drop_first() =~= rest);
        assert(d.last() == rest.last());
        assert(digits_number(d) == d[0] as nat + 10 * digits_number(d.drop_first()));
        assert(d[0] == (n % 10) as u8);
        assert forall|i: int| 0 <= i < d.len() implies #[trigger] d[i] < 10 by {
            if i > 0 {
                assert(d[i] == rest[i - 1]);
            }
        }
    }
}

/// Doubling digits doubles the number they write, and keeps the most
/// significant digit from being zero.
pub proof fn lemma_doubled(d: Seq<u8>, carry: nat)
    requires
        digits_valid(d),
        carry <= 1,
    ensures
        digits_valid(doubled(d, carry)),
        digits_number(doubled(d, carry)) == 2 * digits_number(d) + carry,
        doubled(d, carry).len() >= d.len(),
        d.len() > 0 && d.last() != 0 ==> doubled(d, carry).len() > 0 && doubled(d, carry).last()
            != 0,
    decreases d.len(),
{
    let r = doubled(d, carry);
    if d.len() == 0 {
        if carry > 0 {
            assert(r.drop_first() =~= Seq::<u8>::empty());
            assert(digits_number(r.drop_first()) == 0);
            assert(digits_number(r) == r[0] as nat + 10 * digits_number(r.drop_first()));
        }
    } else {
        let t = 2 * d[0] + carry;
        let rest = d.drop_first();
        assert(digits_valid(rest)) by {
            assert forall|i: int| 0 <= i < rest.len() implies #[trigger] rest[i] < 10 by {
                assert(rest[i] == d[i + 1]);
            }
        }
        lemma_doubled(rest, (t / 10) as nat);
        let tail = doubled(rest, (t / 10) as nat);
        assert(r.drop_first() =~= tail);
        assert(digits_number(r) == r[0] as nat + 10 * digits_number(r.drop_first()));
        assert(digits_number(d) == d[0] as nat + 10 * digits_number(rest));
        assert(r[0] == (t % 10) as u8);
        assert forall|i: int| 0 <= i < r.len() implies #[trigger] r[i] < 10 by {
            if i > 0 {
                assert(r[i] == tail[i - 1]);
            }
        }
        if d.last() != 0 {
            if rest.len() > 0 {
                assert(rest.last() == d.last());
                assert(r.last() == tail.last());
            } else {
                if t / 10 > 0 {
                    assert(tail =~= seq![(t / 10) as u8]);
                    assert(r.last() == tail.last());
                } else {
                    assert(tail =~= Seq::<u8>::empty());
                    assert(r =~= seq![(t % 10) as u8]);
                }
            }
        }
    }
}

/// Digits without a leading zero are the decimal rendering of the number
/// they write.
pub proof fn lemma_digits_text(d: Seq<u8>)
    requires
        digits_valid(d),
        d.len() >= 1,
        d.len() > 1 ==> d.last() != 0,
    ensures
        digits_text(d) == decimal_text(digits_number(d)),
    decreases d.len(),
{
    let rest = d.drop_first();
    if d.len() == 1 {
        assert(rest =~= Seq::<u8>::empty());
        assert(digits_number(rest) == 0);
        assert(digits_text(rest) =~= Seq::<char>::empty());
        assert(digits_text(d) =~= seq![digit_char(d[0] as int)]);
    } else {
        assert(digits_valid(rest)) by {
            assert forall|i: int| 0 <= i < rest.len() implies #[trigger] rest[i] < 10 by {
                assert(rest[i] == d[i + 1]);
            }
        }
        assert(rest.last() == d.last());
        lemma_digits_text(rest);
        lemma_digits_positive(rest);
        let n = digits_number(d);
        assert(n == d[0] + 10 * digits_number(rest));
        assert(n / 10 == digits_number(rest));
        assert(n % 10 == d[0]);
    }
}

/// Digits whose most significant is not zero write a number above zero.
pub proof fn lemma_digits_positive(d: Seq<u8>)
    requires
        d.len() >= 1,
        d.last() != 0,
    ensures
        digits_number(d) > 0,
    decreases d.len(),
{
    if d.len() > 1 {
        assert(d.drop_first().last() == d.last());
        lemma_digits_positive(d.drop_first());
    }
}

proof fn lemma_pow2_monotone(a: nat, b: nat)
    requires
        a <= b,
    ensures
        pow2(a) <= pow2(b),
        pow2(a) >= 1,
{
    lemma_pow2_pos(a);
    if a < b {
        lemma_pow2_strictly_increases(a, b);
    }
}

proof fn lemma_pow2_74()
    ensures
        pow2(74) == 0x400_0000_0000_0000_0000,
        pow2(75) == 0x800_0000_0000_0000_0000,
{
    lemma2_to64();
    lemma_pow2_adds(64, 10);
    lemma_pow2_adds(64, 11);
}

/// Two to the power `k`, for `k` up to 74.
fn power_of_two(k: u64) -> (r: u128)
    requires
        k <= 74,
    ensures
        r == pow2(k as nat),
        1 <= r <= 0x400_0000_0000_0000_0000,
{
    let mut r: u128 = 1;
    let mut i: u64 = 0;
    proof {
        lemma2_to64();
        lemma_pow2_74();
    }
    while i < k
        invariant
            i <= k,
            k <= 74,
            r == pow2(i as nat),
            1 <= r,
            pow2(74) == 0x400_0000_0000_0000_0000,
        decreases k - i,
    {
        proof {
            lemma_pow2_unfold((i + 1) as nat);
            lemma_pow2_monotone((i + 1) as nat, 74);
        }
        r = r * 2;
        i += 1;
    }
    proof {
        lemma_pow2_monotone(k as nat, 74);
    }
    r
}

fn digits_of(n: u64) -> (r: Vec<u8>)
    ensures
        r@ == number_digits(n as nat),
    decreases n,
{
    if n < 10 {
        let mut d: Vec<u8> = Vec::new();
        d.push(n as u8);
        assert(d@ =~= number_digits(n as nat));
        d
    } else {
        let mut d: Vec<u8> = Vec::new();
        d.push((n % 10) as u8);
        let mut rest = digits_of(n / 10);
        d.append(&mut rest);
        assert(d@ =~= number_digits(n as nat));
        d
    }
}

fn double_digits(d: &Vec<u8>) -> (r: Vec<u8>)
    requires
        digits_valid(d@),
    ensures
        r@ == doubled(d@, 0),
{
    let mut out: Vec<u8> = Vec::new();
    let mut carry: u8 = 0;
    let mut i: usize = 0;
    assert(d@.skip(0) =~= d@);
    assert(out@ + doubled(d@.skip(0), 0) =~= doubled(d@, 0));
    while i < d.len()
        invariant
            i <= d.len(),
            digits_valid(d@),
            carry <= 1,
            out@ + doubled(d@.skip(i as int), carry as nat) == doubled(d@, 0),
        decreases d.len() - i,
    {
        let t: u8 = 2 * d[i] + carry;
        proof {
            let here = d@.skip(i as int);
            assert(here[0] == d@[i as int]);
            assert(here.drop_first() =~= d@.skip(i as int + 1));
            assert(doubled(here, carry as nat) =~= seq![(t % 10) as u8] + doubled(
                d@.skip(i as int + 1),
                (t / 10) as nat,
            ));
            assert(out@.push((t % 10) as u8) + doubled(d@.skip(i as int + 1), (t / 10) as nat)
                =~= out@ + doubled(here, carry as nat));
        }
        out.push(t % 10);
        carry = t / 10;
        i += 1;
    }
    proof {
        assert(d@.skip(i as int) =~= Seq::<u8>::empty());
    }
    if carry > 0 {
        proof {
            assert(doubled(Seq::<u8>::empty(), carry as nat) =~= seq![carry]);
            assert(out@.push(carry) =~= out@ + seq![carry]);
        }
        out.push(carry);
    } else {
        assert(out@ + Seq::<u8>::empty() =~= out@);
    }
    out
}

fn append_digits(s: &mut String, d: &Vec<u8>)
    requires
        digits_valid(d@),
    ensures
        final(s)@ == old(s)@ + digits_text(d@),
{
    let mut i: usize = d.len();
    assert(d@.skip(i as int) =~= Seq::<u8>::empty());
    assert(s@ =~= old(s)@ + digits_text(d@.skip(i as int)));
    while i > 0
        invariant
            i <= d.len(),
            digits_valid(d@),
            s@ == old(s)@ + digits_text(d@.skip(i as int)),
        decreases i,
    {
        i -= 1;
        proof {
            let here = d@.skip(i as int);
            assert(here[0] == d@[i as int]);
            assert(here.drop_first() =~= d@.skip(i as int + 1));
        }
        push_char(s, digit_to_char(d[i] as u64));
        assert(s@ =~= old(s)@ + digits_text(d@.skip(i as int)));
    }
    assert(d@.skip(0) =~= d@);
}

fn append_six_digits(s: &mut String, n: u64)
    requires
        n < MICRO,
    ensures
        final(s)@ == old(s)@ + six_digits(n as nat),
{
    push_char(s, digit_to_char(n / 100000 % 10));
    push_char(s, digit_to_char(n / 10000 % 10));
    push_char(s, digit_to_char(n / 1000 % 10));
    push_char(s, digit_to_char(n / 100 % 10));
    push_char(s, digit_to_char(n / 10 % 10));
    push_char(s, digit_to_char(n % 10));
    assert(s@ =~= old(s)@ + six_digits(n as nat));
}

/// Appends the decimal rendering of `mantissa * 2^places`.
fn append_scaled(s: &mut String, mantissa: u64, places: u64)
    requires
        mantissa > 0,
    ensures
        final(s)@ == old(s)@ + decimal_text((mantissa * pow2(places as nat)) as nat),
{
    let mut digits = digits_of(mantissa);
    let mut j: u64 = 0;
    proof {
        lemma_number_digits(mantissa as nat);
        lemma2_to64();
    }
    while j < places
        invariant
            j <= places,
            mantissa > 0,
            digits_valid(digits@),
            digits@.len() >= 1,
            digits@.last() != 0,
            digits_number(digits@) == mantissa * pow2(j as nat),
        decreases places - j,
    {
        proof {
            lemma_doubled(digits@, 0);
            lemma_pow2_unfold((j + 1) as nat);
            assert(2 * (mantissa * pow2(j as nat)) == mantissa * pow2((j + 1) as nat))
                by (nonlinear_arith)
                requires
                    pow2((j + 1) as nat) == 2 * pow2(j as nat),
            ;
        }
        digits = double_digits(&digits);
        j += 1;
    }
    proof {
        lemma_digits_text(digits@);
    }
    append_digits(s, &digits);
}

/// Renders a number with six decimals.
pub fn render_number(bits: u64) -> (r: String)
    ensures
        r@ == number_text(bits),
{
    let parts = decode(bits);
    if parts.exponent == 2047 {
        return if parts.fraction != 0 {
            String::from_str("NaN")
        } else if parts.negative {
            String::from_str("-inf")
        } else {
            String::from_str("inf")
        };
    }
    let mantissa: u64 = if parts.exponent == 0 {
        parts.fraction
    } else {
        parts.fraction + FRACTION_RANGE
    };
    let shift: u64 = if parts.exponent == 0 {
        0
    } else {
        parts.exponent - 1
    };
    let mut text = String::new();
    if parts.negative {
        push_char(&mut text, '-');
    }
    let ghost sign = text@;
    assert(sign =~= if is_negative(bits) {
        seq!['-']
    } else {
        Seq::<char>::empty()
    });
    if shift >= WHOLE_SHIFT {
        let places = shift - WHOLE_SHIFT;
        let ghost whole = (mantissa * pow2(places as nat)) as nat;
        proof {
            lemma_pow2_pos(places as nat);
            assert(mantissa * pow2(places as nat) >= 0) by (nonlinear_arith)
                requires
                    mantissa >= 0,
                    pow2(places as nat) >= 0,
            ;
            lemma_div_multiples_vanish(whole as int, MICRO as int);
            lemma_mod_multiples_basic(whole as int, MICRO as int);
            assert(micros_of(bits) == whole * MICRO);
        }
        append_scaled(&mut text, mantissa, places);
        push_char(&mut text, '.');
        append_six_digits(&mut text, 0);
        assert(text@ =~= number_text(bits));
        text
    } else {
        let down = WHOLE_SHIFT - shift;
        assert(mantissa * 1000000 <= 0x20_0000_0000_0000 * 1000000) by (nonlinear_arith)
            requires
                mantissa < 0x20_0000_0000_0000,
        ;
        let scaled: u128 = mantissa as u128 * MICRO as u128;
        let micros: u128 = if down >= 75 {
            proof {
                lemma_pow2_74();
                lemma_pow2_monotone(75, down as nat);
                lemma_basic_div(scaled as int, pow2(down as nat) as int);
                lemma_small_mod(scaled as nat, pow2(down as nat));
            }
            0
        } else {
            let divisor = power_of_two(down);
            let quotient = scaled / divisor;
            let rest = scaled % divisor;
            if 2 * rest < divisor {
                quotient
            } else if 2 * rest > divisor {
                quotient + 1
            } else if quotient % 2 == 0 {
                quotient
            } else {
                quotient + 1
            }
        };
        assert(micros == micros_of(bits));
        proof {
            lemma_pow2_pos(down as nat);
            lemma2_to64();
            if down < 75 {
                lemma_div_is_ordered_by_denominator(scaled as int, 1, pow2(down as nat) as int);
            }
        }
        let whole: u64 = (micros / MICRO as u128) as u64;
        let fraction: u64 = (micros % MICRO as u128) as u64;
        append_decimal(&mut text, whole);
        push_char(&mut text, '.');
        append_six_digits(&mut text, fraction);
        assert(text@ =~= number_text(bits));
        text
    }
}

} // verus!
