use crate::numeric::Numeric;
use crate::util::{cordic_log, cordic_powf, log_spec, pow_spec};
use vstd::prelude::*;

verus! {

/// Scalars whose sine, cosine and exponential are computed by CORDIC
/// iterations.
pub trait CordicMarker {

}

/// A signed fixed-point number with 32 integer and 32 fractional bits: the
/// number `bits / 2^32`.
#[derive(Clone, Copy, PartialEq, Eq, Debug)]
pub struct Fixed {
    pub bits: i64,
}

impl CordicMarker for Fixed {

}

/// The bits of the number one.
pub const ONE: i64 = 0x1_0000_0000;

/// The bits of the number nearest to the circle constant pi.
pub const PI: i64 = 13493037705;

/// The bits of the number nearest to twice pi.
pub const TAU: i64 = 26986075409;

/// The bits of the greatest argument whose exponential is still computed:
/// twenty-one. The exponential of anything greater is taken as too large to
/// hold.
pub const EXP_HIGH: i64 = 90194313216;

/// The bits of the least argument whose exponential is still computed: minus
/// twenty-four. The exponential of anything less is taken as zero.
pub const EXP_LOW: i64 = -103079215104;

/// `v` where an `i64` can hold it, else the nearest end of the `i64` range.
pub open spec fn clamp(v: int) -> i64 {
    if v > i64::MAX {
        i64::MAX
    } else if v < i64::MIN {
        i64::MIN
    } else {
        v as i64
    }
}

/// `v` where an `i64` can hold it, else the end of the `i64` range on the
/// side that `negative` names.
pub open spec fn saturate(v: int, negative: bool) -> i64 {
    if i64::MIN <= v <= i64::MAX {
        v as i64
    } else if negative {
        i64::MIN
    } else {
        i64::MAX
    }
}

/// The quotient of `n` by `d`, rounded towards zero.
pub open spec fn quotient_towards_zero(n: int, d: int) -> int
    recommends
        d != 0,
{
    if n >= 0 {
        if d > 0 {
            n / d
        } else {
            -(n / (-d))
        }
    } else {
        if d > 0 {
            -((-n) / d)
        } else {
            (-n) / (-d)
        }
    }
}

/// The angle that differs from `angle` by a whole number of turns and lies
/// within half a turn of zero.
pub open spec fn wrap_angle(angle: i64) -> i64 {
    let r = angle as int % TAU as int;
    if r > PI {
        (r - TAU) as i64
    } else {
        r as i64
    }
}

/// The bits that `cordic::sin` returns for the 32.32 number with the given
/// bits.
pub uninterp spec fn cordic_sin_bits(angle: i64) -> i64;

/// The bits that `cordic::cos` returns for the 32.32 number with the given
/// bits.
pub uninterp spec fn cordic_cos_bits(angle: i64) -> i64;

/// The bits that `cordic::exp` returns for the 32.32 number with the given
/// bits.
pub uninterp spec fn cordic_exp_bits(x: i64) -> i64;

/// The decimal text that the `fixed` crate displays for the 32.32 number with
/// the given bits.
pub uninterp spec fn fixed_text(bits: i64) -> Seq<char>;

/// The bits of the 32.32 number that the `fixed` crate reads from a decimal
/// text, if it reads one.
pub uninterp spec fn fixed_literal(digits: Seq<char>) -> Option<i64>;

/// `FixedI64::saturating_add` on two 32.32 numbers: the sum of the bits, kept
/// within the range of `i64`.
#[verifier::external_body]
fn fixed_add(a: i64, b: i64) -> (out: i64)
    ensures
        out == clamp(a + b),
{
    fixed::types::I32F32::from_bits(a).saturating_add(fixed::types::I32F32::from_bits(b)).to_bits()
}

/// `FixedI64::saturating_sub` on two 32.32 numbers: the difference of the
/// bits, kept within the range of `i64`.
#[verifier::external_body]
fn fixed_sub(a: i64, b: i64) -> (out: i64)
    ensures
        out == clamp(a - b),
{
    fixed::types::I32F32::from_bits(a).saturating_sub(fixed::types::I32F32::from_bits(b)).to_bits()
}

/// `FixedI64::saturating_mul` on two 32.32 numbers: the product of the bits
/// over `2^32`, rounded down; where that does not fit, the end of the range
/// on the side of the product's sign.
#[verifier::external_body]
fn fixed_mul(a: i64, b: i64) -> (out: i64)
    ensures
        out == saturate((a * b) / ONE as int, (a < 0) != (b < 0)),
{
    fixed::types::I32F32::from_bits(a).saturating_mul(fixed::types::I32F32::from_bits(b)).to_bits()
}

/// `FixedI64::saturating_div` on two 32.32 numbers, which panics on a zero
/// divisor: `2^32` times the bits of the dividend over the bits of the
/// divisor, rounded towards zero; where that does not fit, the end of the
/// range on the side of the quotient's sign.
#[verifier::external_body]
fn fixed_div(a: i64, b: i64) -> (out: i64)
    requires
        b != 0,
    ensures
        out == saturate(quotient_towards_zero(a * ONE, b as int), (a < 0) != (b < 0)),
{
    fixed::types::I32F32::from_bits(a).saturating_div(fixed::types::I32F32::from_bits(b)).to_bits()
}

/// `FixedI64::saturating_neg` on a 32.32 number: the negated bits, and the
/// greatest number for the least, which has no negation.
#[verifier::external_body]
fn fixed_neg(a: i64) -> (out: i64)
    ensures
        out == if a == i64::MIN {
            i64::MAX
        } else {
            (-a) as i64
        },
{
    fixed::types::I32F32::from_bits(a).saturating_neg().to_bits()
}

/// `cordic::sin` on a 32.32 number within half a turn of zero, where its
/// reduction of the angle takes at most two steps.
#[verifier::external_body]
fn cordic_sin(angle: i64) -> (out: i64)
    requires
        -PI <= angle <= PI,
    ensures
        out == cordic_sin_bits(angle),
{
    cordic::sin(fixed::types::I32F32::from_bits(angle)).to_bits()
}

/// `cordic::cos` on a 32.32 number within half a turn of zero, where its
/// reduction of the angle takes at most two steps.
#[verifier::external_body]
fn cordic_cos(angle: i64) -> (out: i64)
    requires
        -PI <= angle <= PI,
    ensures
        out == cordic_cos_bits(angle),
{
    cordic::cos(fixed::types::I32F32::from_bits(angle)).to_bits()
}

/// `cordic::exp` on a 32.32 number between minus twenty-four and twenty-one,
/// where none of its products leaves the range of the type.
#[verifier::external_body]
fn cordic_exp(x: i64) -> (out: i64)
    requires
        EXP_LOW <= x <= EXP_HIGH,
    ensures
        out == cordic_exp_bits(x),
{
    cordic::exp(fixed::types::I32F32::from_bits(x)).to_bits()
}

/// The `Display` of the `fixed` crate for a 32.32 number.
#[verifier::external_body]
fn fixed_to_string(bits: i64) -> (out: String)
    ensures
        out@ == fixed_text(bits),
{
    format!("{}", fixed::types::I32F32::from_bits(bits))
}

/// `FixedI64::from_str` for a 32.32 number, with its error turned into
/// `None`.
#[verifier::external_body]
fn fixed_from_str(digits: &str) -> (out: Option<i64>)
    ensures
        out == fixed_literal(digits@),
{
    match fixed::types::I32F32::from_str(digits) {
        Ok(value) => Some(value.to_bits()),
        Err(_) => None,
    }
}

impl Fixed {
    /// The whole number `n`.
    pub fn from_int(n: i32) -> (out: Fixed)
        ensures
            out.bits == n * ONE,
    {
        Fixed { bits: (n as i64) * ONE }
    }

    /// The sum, kept within the range of the type.
    pub open spec fn plus(self, rhs: Fixed) -> Fixed {
        Fixed { bits: clamp(self.bits + rhs.bits) }
    }

    /// The difference, kept within the range of the type.
    pub open spec fn minus(self, rhs: Fixed) -> Fixed {
        Fixed { bits: clamp(self.bits - rhs.bits) }
    }

    /// The product rounded down to the next number, kept within the range of
    /// the type.
    pub open spec fn times(self, rhs: Fixed) -> Fixed {
        Fixed { bits: saturate((self.bits * rhs.bits) / ONE as int, (self.bits < 0) != (rhs.bits < 0)) }
    }

    /// The quotient rounded towards zero, kept within the range of the type.
    /// A number over zero is the end of the range on its own side, and zero
    /// over zero is zero.
    pub open spec fn over(self, rhs: Fixed) -> Fixed {
        if rhs.bits == 0 {
            Fixed {
                bits: if self.bits > 0 {
                    i64::MAX
                } else if self.bits < 0 {
                    i64::MIN
                } else {
                    0
                },
            }
        } else {
            Fixed {
                bits: saturate(
                    quotient_towards_zero(self.bits * ONE, rhs.bits as int),
                    (self.bits < 0) != (rhs.bits < 0),
                ),
            }
        }
    }

    /// The negation; that of the least number is the greatest.
    pub open spec fn negated(self) -> Fixed {
        Fixed { bits: if self.bits == i64::MIN {
            i64::MAX
        } else {
            (-self.bits) as i64
        } }
    }

    /// The sine: what CORDIC computes for the angle brought within half a
    /// turn of zero.
    pub open spec fn sine(self) -> Fixed {
        Fixed { bits: cordic_sin_bits(wrap_angle(self.bits)) }
    }

    /// The cosine: what CORDIC computes for the angle brought within half a
    /// turn of zero.
    pub open spec fn cosine(self) -> Fixed {
        Fixed { bits: cordic_cos_bits(wrap_angle(self.bits)) }
    }

    /// The exponential: what CORDIC computes between minus twenty-four and
    /// twenty-one, zero below and the greatest number above.
    pub open spec fn exponential(self) -> Fixed {
        Fixed {
            bits: if self.bits < EXP_LOW {
                0
            } else if self.bits > EXP_HIGH {
                i64::MAX
            } else {
                cordic_exp_bits(self.bits)
            },
        }
    }

    pub fn saturating_add(self, rhs: Fixed) -> (out: Fixed)
        ensures
            out == self.plus(rhs),
    {
        Fixed { bits: fixed_add(self.bits, rhs.bits) }
    }

    pub fn saturating_sub(self, rhs: Fixed) -> (out: Fixed)
        ensures
            out == self.minus(rhs),
    {
        Fixed { bits: fixed_sub(self.bits, rhs.bits) }
    }

    pub fn saturating_mul(self, rhs: Fixed) -> (out: Fixed)
        ensures
            out == self.times(rhs),
    {
        Fixed { bits: fixed_mul(self.bits, rhs.bits) }
    }

    pub fn saturating_div(self, rhs: Fixed) -> (out: Fixed)
        ensures
            out == self.over(rhs),
    {
        if rhs.bits == 0 {
            if self.bits > 0 {
                Fixed { bits: i64::MAX }
            } else if self.bits < 0 {
                Fixed { bits: i64::MIN }
            } else {
                Fixed { bits: 0 }
            }
        } else {
            Fixed { bits: fixed_div(self.bits, rhs.bits) }
        }
    }

    pub fn saturating_neg(self) -> (out: Fixed)
        ensures
            out == self.negated(),
    {
        Fixed { bits: fixed_neg(self.bits) }
    }

    /// Brings an angle within half a turn of zero by taking whole turns away.
    pub fn wrapped(self) -> (out: Fixed)
        ensures
            out.bits == wrap_angle(self.bits),
            -PI <= out.bits <= PI,
    {
        let r: i64 = if self.bits >= 0 {
            self.bits % TAU
        } else {
            TAU - 1 - (-(self.bits + 1)) % TAU
        };
        assert(r == self.bits as int % TAU as int) by {
            if self.bits < 0 {
                let m = (-(self.bits + 1)) as int;
                let q = m / (TAU as int);
                assert(m == q * TAU + m % (TAU as int)) by {
                    vstd::arithmetic::div_mod::lemma_fundamental_div_mod(m, TAU as int);
                }
                assert(self.bits as int == (-q - 1) * TAU + r);
                vstd::arithmetic::div_mod::lemma_fundamental_div_mod_converse(
                    self.bits as int,
                    TAU as int,
                    -q - 1,
                    r as int,
                );
            }
        }
        if r > PI {
            Fixed { bits: r - TAU }
        } else {
            Fixed { bits: r }
        }
    }

    pub fn sin(self) -> (out: Fixed)
        ensures
            out == self.sine(),
    {
        Fixed { bits: cordic_sin(self.wrapped().bits) }
    }

    pub fn cos(self) -> (out: Fixed)
        ensures
            out == self.cosine(),
    {
        Fixed { bits: cordic_cos(self.wrapped().bits) }
    }

    pub fn exp(self) -> (out: Fixed)
        ensures
            out == self.exponential(),
    {
        if self.bits < EXP_LOW {
            Fixed { bits: 0 }
        } else if self.bits > EXP_HIGH {
            Fixed { bits: i64::MAX }
        } else {
            Fixed { bits: cordic_exp(self.bits) }
        }
    }
}

/// A number times one is the number itself.
pub proof fn lemma_times_one(a: Fixed)
    ensures
        a.times(Fixed { bits: ONE }) == a,
        (Fixed { bits: ONE }).times(a) == a,
{
    assert((a.bits * ONE) / ONE as int == a.bits) by (nonlinear_arith);
    assert((ONE * a.bits) / ONE as int == a.bits) by (nonlinear_arith);
}

/// A number other than zero, divided by itself, is one.
pub proof fn lemma_quotient_by_itself(a: Fixed)
    requires
        a.bits != 0,
    ensures
        a.over(a) == (Fixed { bits: ONE }),
{
    let n = a.bits as int;
    if n > 0 {
        assert((n * ONE) / n == ONE) by (nonlinear_arith)
            requires
                n > 0,
        ;
    } else {
        assert(-(n * ONE) == (-n) * ONE) by (nonlinear_arith);
        assert(((-n) * ONE) / (-n) == ONE) by (nonlinear_arith)
            requires
                n < 0,
        ;
    }
}

/// Negating twice gives the number back, but for the least number.
pub proof fn lemma_negated_twice(a: Fixed)
    requires
        a.bits != i64::MIN,
    ensures
        a.negated().negated() == a,
{
}

/// A number less itself is zero, and a number plus zero is the number.
pub proof fn lemma_sum_with_zero(a: Fixed)
    ensures
        a.minus(a) == (Fixed { bits: 0 }),
        a.plus(Fixed { bits: 0 }) == a,
{
}

impl Numeric for Fixed {
    open spec fn rank(self) -> int {
        self.bits as int
    }

    open spec fn add_spec(self, rhs: Self) -> Self {
        self.plus(rhs)
    }

    open spec fn sub_spec(self, rhs: Self) -> Self {
        self.minus(rhs)
    }

    open spec fn mul_spec(self, rhs: Self) -> Self {
        self.times(rhs)
    }

    open spec fn div_spec(self, rhs: Self) -> Self {
        self.over(rhs)
    }

    open spec fn pow_spec(self, exponent: Self) -> Self {
        pow_spec(self, exponent)
    }

    open spec fn log_spec(self, base: Self) -> Self {
        log_spec(self, base)
    }

    open spec fn neg_spec(self) -> Self {
        self.negated()
    }

    open spec fn sin_spec(self) -> Self {
        self.sine()
    }

    open spec fn cos_spec(self) -> Self {
        self.cosine()
    }

    open spec fn text(self) -> Seq<char> {
        fixed_text(self.bits)
    }

    open spec fn literal(digits: Seq<char>) -> Option<Self> {
        match fixed_literal(digits) {
            Some(bits) => Some(Fixed { bits }),
            None => None,
        }
    }

    fn same(self, rhs: Self) -> (out: bool) {
        self.bits == rhs.bits
    }

    fn lt(self, rhs: Self) -> (out: bool) {
        self.bits < rhs.bits
    }

    fn le(self, rhs: Self) -> (out: bool) {
        self.bits <= rhs.bits
    }

    fn add(self, rhs: Self) -> (out: Self) {
        self.saturating_add(rhs)
    }

    fn sub(self, rhs: Self) -> (out: Self) {
        self.saturating_sub(rhs)
    }

    fn mul(self, rhs: Self) -> (out: Self) {
        self.saturating_mul(rhs)
    }

    fn div(self, rhs: Self) -> (out: Self) {
        self.saturating_div(rhs)
    }

    fn pow(self, exponent: Self) -> (out: Self) {
        cordic_powf(self, exponent)
    }

    fn log(self, base: Self) -> (out: Self) {
        cordic_log(self, base)
    }

    fn neg(self) -> (out: Self) {
        self.saturating_neg()
    }

    fn sin(self) -> (out: Self) {
        Fixed::sin(self)
    }

    fn cos(self) -> (out: Self) {
        Fixed::cos(self)
    }

    fn to_text(self) -> (out: String) {
        fixed_to_string(self.bits)
    }

    fn from_literal(digits: &str) -> (out: Option<Self>) {
        match fixed_from_str(digits) {
            Some(bits) => Some(Fixed { bits }),
            None => None,
        }
    }
}

} // verus!
