//! CPU utilisation samples.
//!
//! A collector reports utilisation as a single-precision number. Verified code
//! never computes with such a number: it carries the IEEE 754 bit pattern and
//! reads sign, exponent and fraction from it with integer arithmetic.

use vstd::prelude::*;
use vstd::arithmetic::div_mod::*;
use vstd::arithmetic::mul::*;
use vstd::arithmetic::power2::*;
use vstd::string::*;
use crate::text::{append_decimal, decimal_digits, digit_char, digit_text};

verus! {

/// The quotient of `n` by `unit`, rounded to the nearest integer; a quotient
/// halfway between two integers goes to the even one.
pub open spec fn round_half_even(n: nat, unit: nat) -> nat {
    let whole = n / unit;
    let rest = n % unit;
    if 2 * rest > unit || (2 * rest == unit && whole % 2 == 1) {
        whole + 1
    } else {
        whole
    }
}

/// A CPU utilisation percentage, held as the bit pattern of the
/// single-precision number that was sampled.
#[derive(Clone, Copy, Debug, PartialEq, Eq, Structural)]
pub struct CpuUsage {
    /// Sign bit, eight exponent bits and twenty-three fraction bits, from the
    /// most significant bit down.
    pub bits: u32,
}

impl CpuUsage {
    /// The pattern without its sign bit.
    pub open spec fn magnitude(self) -> int {
        self.bits as int % 0x8000_0000
    }

    /// Whether the sign bit is set.
    pub open spec fn is_negative(self) -> bool {
        self.bits >= 0x8000_0000u32
    }

    /// Whether the pattern stands for a number, finite or infinite, and not
    /// for "not a number".
    pub open spec fn is_numeric(self) -> bool {
        self.magnitude() <= 0x7f80_0000
    }

    /// The position of the sample in the total order by which samples are
    /// ranked: numbers by their value, both zeros alike, and every
    /// non-numeric sample below every number.
    pub open spec fn order_key(self) -> int {
        if !self.is_numeric() {
            -0x8000_0000
        } else if self.is_negative() {
            -self.magnitude()
        } else {
            self.magnitude()
        }
    }

    /// Whether the sample is a number and not an infinity.
    pub open spec fn is_finite(self) -> bool {
        self.magnitude() < 0x7f80_0000
    }

    /// Whether the sample is one of the two infinities.
    pub open spec fn is_infinite(self) -> bool {
        self.magnitude() == 0x7f80_0000
    }

    /// The exponent field of the pattern: eight bits.
    pub open spec fn exponent_field(self) -> int {
        self.magnitude() / 0x80_0000
    }

    /// The fraction field of the pattern: twenty-three bits.
    pub open spec fn fraction_field(self) -> int {
        self.magnitude() % 0x80_0000
    }

    /// The integer `m` of a finite sample whose absolute value is
    /// `m * 2^scale`.
    pub open spec fn significand(self) -> nat {
        if self.exponent_field() == 0 {
            self.fraction_field() as nat
        } else {
            (0x80_0000 + self.fraction_field()) as nat
        }
    }

    /// The power of two by which the significand of a finite sample is
    /// multiplied.
    pub open spec fn scale(self) -> int {
        if self.exponent_field() == 0 {
            -149
        } else {
            self.exponent_field() - 150
        }
    }

    /// The absolute value of a finite sample, counted in units of `2^-149`,
    /// of which every finite sample is a whole multiple.
    pub open spec fn scaled_magnitude(self) -> nat {
        self.significand() * pow2((self.scale() + 149) as nat)
    }

    /// The value of a finite sample, counted in units of `2^-149`.
    pub open spec fn scaled_value(self) -> int {
        if self.is_negative() {
            -(self.scaled_magnitude() as int)
        } else {
            self.scaled_magnitude() as int
        }
    }

    /// Ten times the absolute value of a finite sample, rounded to the
    /// nearest integer, halves to the even one: the sample in tenths of a
    /// percent.
    pub open spec fn tenths(self) -> nat {
        if self.scale() >= 0 {
            10 * (self.significand() * pow2(self.scale() as nat))
        } else {
            round_half_even(10 * self.significand(), pow2((-self.scale()) as nat))
        }
    }

    /// The sample written with one decimal place: "NaN" for a non-numeric
    /// sample; else a minus sign where the sign bit is set, then "inf" for an
    /// infinity, or the whole part, a point and one digit.
    pub open spec fn text(self) -> Seq<char> {
        if !self.is_numeric() {
            seq!['N', 'a', 'N']
        } else {
            let sign = if self.is_negative() {
                seq!['-']
            } else {
                Seq::<char>::empty()
            };
            if self.is_infinite() {
                sign + seq!['i', 'n', 'f']
            } else {
                sign + decimal_digits(self.tenths() / 10) + seq!['.'] + seq![
                    digit_char((self.tenths() % 10) as int),
                ]
            }
        }
    }

    /// Wraps the bit pattern of a sampled percentage.
    pub fn from_bits(bits: u32) -> (usage: CpuUsage)
        ensures
            usage.bits == bits,
    {
        CpuUsage { bits }
    }

    /// Computes the sample's position in the ranking order.
    pub fn ranking_key(&self) -> (key: i64)
        ensures
            key == self.order_key(),
    {
        let magnitude: u32 = self.bits % 0x8000_0000;
        if magnitude > 0x7f80_0000 {
            -0x8000_0000
        } else if self.bits >= 0x8000_0000 {
            -(magnitude as i64)
        } else {
            magnitude as i64
        }
    }
}

/// The absolute value of a finite sample from its two fields.
proof fn lemma_scaled_magnitude(a: CpuUsage)
    requires
        a.is_finite(),
    ensures
        a.exponent_field() == 0 ==> a.scaled_magnitude() == a.fraction_field(),
        a.exponent_field() > 0 ==> a.scaled_magnitude() == (0x80_0000 + a.fraction_field()) * pow2(
            (a.exponent_field() - 1) as nat,
        ),
        0 <= a.exponent_field() < 255,
        0 <= a.fraction_field() < 0x80_0000,
        a.magnitude() == a.exponent_field() * 0x80_0000 + a.fraction_field(),
{
    lemma2_to64();
    if a.exponent_field() == 0 {
        assert(a.scale() + 149 == 0);
        assert(a.scaled_magnitude() == a.significand() * pow2(0));
    } else {
        assert(a.scale() + 149 == a.exponent_field() - 1);
    }
}

/// Of two finite samples, the one with the smaller pattern behind the sign
/// bit has the smaller absolute value.
pub proof fn lemma_magnitude_orders_values(a: CpuUsage, b: CpuUsage)
    requires
        a.is_finite(),
        b.is_finite(),
        a.magnitude() < b.magnitude(),
    ensures
        a.scaled_magnitude() < b.scaled_magnitude(),
{
    let ea = a.exponent_field();
    let eb = b.exponent_field();
    let fa = a.fraction_field();
    let fb = b.fraction_field();
    lemma_scaled_magnitude(a);
    lemma_scaled_magnitude(b);
    lemma2_to64();
    if ea == eb {
        if ea > 0 {
            let unit = pow2((ea - 1) as nat) as int;
            lemma_pow2_pos((ea - 1) as nat);
            lemma_mul_strict_inequality(0x80_0000 + fa, 0x80_0000 + fb, unit);
        }
    } else {
        assert(ea < eb);
        let low = pow2(ea as nat) as int;
        let high = pow2((eb - 1) as nat) as int;
        lemma_pow2_pos(ea as nat);
        if ea < eb - 1 {
            lemma_pow2_strictly_increases(ea as nat, (eb - 1) as nat);
        }
        assert(low <= high);
        assert(a.scaled_magnitude() < 0x80_0000 * low) by {
            if ea > 0 {
                let unit = pow2((ea - 1) as nat) as int;
                lemma_pow2_pos((ea - 1) as nat);
                lemma_pow2_unfold(ea as nat);
                lemma_mul_strict_inequality(0x80_0000 + fa, 0x100_0000, unit);
                assert(a.scaled_magnitude() < 0x100_0000 * unit);
                assert(low == 2 * unit);
            }
        }
        assert(b.scaled_magnitude() >= 0x80_0000 * high) by {
            lemma_mul_inequality(0x80_0000, 0x80_0000 + fb, high);
        }
    }
}

/// The ranking order of finite samples is the order of their values, and
/// samples rank alike exactly when their values are equal.
pub proof fn lemma_order_key_orders_values(a: CpuUsage, b: CpuUsage)
    requires
        a.is_finite(),
        b.is_finite(),
    ensures
        a.order_key() < b.order_key() <==> a.scaled_value() < b.scaled_value(),
        a.order_key() == b.order_key() <==> a.scaled_value() == b.scaled_value(),
{
    let zero = CpuUsage { bits: 0 };
    lemma2_to64();
    assert(zero.scaled_magnitude() == 0);
    if a.magnitude() > 0 {
        lemma_magnitude_orders_values(zero, a);
    }
    if b.magnitude() > 0 {
        lemma_magnitude_orders_values(zero, b);
    }
    if a.magnitude() < b.magnitude() {
        lemma_magnitude_orders_values(a, b);
    } else if b.magnitude() < a.magnitude() {
        lemma_magnitude_orders_values(b, a);
    }
}

/// Where the extremes rank: every non-numeric sample below every number,
/// the infinities at the two ends of the numbers.
pub proof fn lemma_order_key_extremes(a: CpuUsage, b: CpuUsage)
    ensures
        !a.is_numeric() && b.is_numeric() ==> a.order_key() < b.order_key(),
        !a.is_numeric() && !b.is_numeric() ==> a.order_key() == b.order_key(),
        a.is_finite() && b.is_infinite() && !b.is_negative() ==> a.order_key() < b.order_key(),
        a.is_finite() && b.is_infinite() && b.is_negative() ==> b.order_key() < a.order_key(),
{
}

/// Rounding goes to a nearest integer: the rounded quotient, taken times
/// `unit`, differs from `n` by half of `unit` at most.
pub proof fn lemma_round_half_even_is_nearest(n: nat, unit: nat)
    requires
        unit > 0,
    ensures
        2 * n - unit <= 2 * (round_half_even(n, unit) * unit) <= 2 * n + unit,
{
    let whole = n / unit;
    let rest = n % unit;
    lemma_fundamental_div_mod(n as int, unit as int);
    lemma_mod_bound(n as int, unit as int);
    assert(n == unit * whole + rest);
    assert((whole + 1) * unit == unit * whole + unit) by (nonlinear_arith);
    assert(whole * unit == unit * whole) by (nonlinear_arith);
}

/// The tenths of a finite sample are a nearest integer to ten times its
/// absolute value: counted in units of `2^-149`, the two differ by half a
/// tenth at most.
pub proof fn lemma_tenths_is_nearest(a: CpuUsage)
    requires
        a.is_finite(),
    ensures
        2 * (10 * a.scaled_magnitude()) - pow2(149) <= 2 * (a.tenths() * pow2(149)) <= 2 * (10
            * a.scaled_magnitude()) + pow2(149),
{
    lemma_scaled_magnitude(a);
    let m = a.significand() as int;
    let t = a.tenths() as int;
    let value = a.scaled_magnitude() as int;
    let whole = pow2(149) as int;
    lemma_pow2_pos(149);
    if a.scale() >= 0 {
        let up = pow2(a.scale() as nat) as int;
        lemma_pow2_adds(a.scale() as nat, 149);
        assert(t * whole == 10 * value) by (nonlinear_arith)
            requires
                t == 10 * (m * up),
                value == m * (up * whole),
        ;
    } else {
        let down = pow2((-a.scale()) as nat) as int;
        let rest = pow2((a.scale() + 149) as nat) as int;
        lemma_pow2_adds((-a.scale()) as nat, (a.scale() + 149) as nat);
        lemma_pow2_pos((-a.scale()) as nat);
        lemma_pow2_pos((a.scale() + 149) as nat);
        lemma_round_half_even_is_nearest((10 * m) as nat, down as nat);
        assert(2 * (10 * value) - whole <= 2 * (t * whole) <= 2 * (10 * value) + whole)
            by (nonlinear_arith)
            requires
                value == m * rest,
                whole == down * rest,
                rest > 0,
                2 * (10 * m) - down <= 2 * (t * down) <= 2 * (10 * m) + down,
        ;
    }
}

/// Some powers of two, written out.
proof fn lemma_powers_of_two()
    ensures
        pow2(63) == 0x8000_0000_0000_0000,
        pow2(104) == 0x100_0000_0000_0000_0000_0000_0000,
        pow2(127) == 0x8000_0000_0000_0000_0000_0000_0000_0000,
{
    lemma2_to64();
    lemma2_to64_rest();
    lemma_pow2_adds(64, 40);
    lemma_pow2_adds(64, 63);
}

/// Two to the power `exponent`.
fn power_of_two(exponent: u32) -> (power: u128)
    requires
        exponent < 128,
    ensures
        power == pow2(exponent as nat),
{
    let mut power: u128 = 1;
    let mut done: u32 = 0;
    proof {
        lemma2_to64();
    }
    while done < exponent
        invariant
            done <= exponent < 128,
            power == pow2(done as nat),
        decreases exponent - done,
    {
        proof {
            lemma_powers_of_two();
            lemma_pow2_unfold((done + 1) as nat);
            if done + 1 < 127 {
                lemma_pow2_strictly_increases((done + 1) as nat, 127);
            }
        }
        power = power * 2;
        done += 1;
    }
    power
}

/// The whole part and the digit behind the point of a finite sample.
fn whole_and_tenth(usage: CpuUsage) -> (parts: (u128, u8))
    requires
        usage.is_finite(),
    ensures
        parts.0 == usage.tenths() / 10,
        parts.1 == usage.tenths() % 10,
{
    let magnitude: u32 = usage.bits % 0x8000_0000;
    let exponent: u32 = magnitude / 0x80_0000;
    let fraction: u32 = magnitude % 0x80_0000;
    let significand: u128 = if exponent == 0 {
        fraction as u128
    } else {
        (0x80_0000 + fraction) as u128
    };
    if exponent >= 150 {
        let power = power_of_two(exponent - 150);
        proof {
            lemma_powers_of_two();
            if exponent - 150 < 104 {
                lemma_pow2_strictly_increases((exponent - 150) as nat, 104);
            }
            lemma_mul_upper_bound(
                significand as int,
                0xff_ffff,
                power as int,
                0x100_0000_0000_0000_0000_0000_0000,
            );
        }
        (significand * power, 0)
    } else {
        let shift: u32 = if exponent == 0 {
            149
        } else {
            150 - exponent
        };
        let scaled: u128 = 10 * significand;
        if shift >= 64 {
            proof {
                lemma_powers_of_two();
                lemma_pow2_strictly_increases(63, shift as nat);
                lemma_basic_div(scaled as int, pow2(shift as nat) as int);
                lemma_small_mod(scaled as nat, pow2(shift as nat));
            }
            (0, 0)
        } else {
            let unit = power_of_two(shift);
            proof {
                lemma_powers_of_two();
                lemma_pow2_pos(shift as nat);
                if shift < 63 {
                    lemma_pow2_strictly_increases(shift as nat, 63);
                }
            }
            let whole = scaled / unit;
            let rest = scaled % unit;
            let rounded = if 2 * rest > unit || (2 * rest == unit && whole % 2 == 1) {
                whole + 1
            } else {
                whole
            };
            (rounded / 10, (rounded % 10) as u8)
        }
    }
}

/// Writes a CPU utilisation sample with one decimal place.
pub fn format_percent(usage: CpuUsage) -> (text: String)
    ensures
        text@ == usage.text(),
{
    let magnitude: u32 = usage.bits % 0x8000_0000;
    let mut text = String::new();
    proof {
        reveal_strlit("NaN");
        reveal_strlit("-");
        reveal_strlit("inf");
        reveal_strlit(".");
    }
    if magnitude > 0x7f80_0000 {
        text.append("NaN");
        assert(text@ =~= seq!['N', 'a', 'N']);
        return text;
    }
    if usage.bits >= 0x8000_0000 {
        text.append("-");
    }
    let ghost sign = text@;
    assert(sign =~= if usage.is_negative() {
        seq!['-']
    } else {
        Seq::<char>::empty()
    });
    if magnitude == 0x7f80_0000 {
        text.append("inf");
        assert(text@ =~= sign + seq!['i', 'n', 'f']);
        return text;
    }
    let (whole, tenth) = whole_and_tenth(usage);
    append_decimal(&mut text, whole);
    text.append(".");
    text.append(digit_text(tenth));
    assert(text@ =~= sign + decimal_digits(usage.tenths() / 10) + seq!['.'] + seq![
        digit_char((usage.tenths() % 10) as int),
    ]);
    text
}

} // verus!
