use crate::fixed_point::{Fixed, ONE};
use vstd::arithmetic::power2::{
    lemma2_to64, lemma2_to64_rest, lemma_pow2_strictly_increases, lemma_pow2_unfold, pow2,
};
use vstd::prelude::*;

verus! {

/// The bits of the number nearest to the natural logarithm of two.
pub const LN_2: i64 = 2977044472;

/// Two to the power 62: a mantissa lies between this and its double.
pub const MANTISSA_LOW: u64 = 0x4000_0000_0000_0000;

/// How many times a positive `n` below `2^62` is doubled until it reaches
/// `2^62`.
pub open spec fn doublings(n: int) -> int
    decreases 2 * MANTISSA_LOW - n,
{
    if 0 < n < MANTISSA_LOW {
        1 + doublings(2 * n)
    } else {
        0
    }
}

/// A positive `n` doubled until it reaches `2^62`: its binary digits moved up
/// so that the leading one stands at position 62.
pub open spec fn mantissa(n: int) -> int
    decreases 2 * MANTISSA_LOW - n,
{
    if 0 < n < MANTISSA_LOW {
        mantissa(2 * n)
    } else {
        n
    }
}

/// The next `steps` binary digits of the logarithm to base two of
/// `m / 2^62`, appended to the digits `acc`. Each digit comes from squaring:
/// where the square reaches two, the digit is one and the square is halved.
pub open spec fn log2_digits(m: int, acc: int, steps: nat) -> int
    decreases steps,
{
    if steps == 0 {
        acc
    } else {
        let square = (m * m) / MANTISSA_LOW as int;
        if square >= 2 * MANTISSA_LOW {
            log2_digits(square / 2, 2 * acc + 1, (steps - 1) as nat)
        } else {
            log2_digits(square, 2 * acc, (steps - 1) as nat)
        }
    }
}

/// The logarithm to base two of a fixed-point number: for a positive number,
/// the position of its leading binary digit as the whole part and 32 digits
/// found by squaring as the fraction; for any other number, the least number.
pub open spec fn log2_spec(a: Fixed) -> Fixed {
    if a.bits <= 0 {
        Fixed { bits: i64::MIN }
    } else {
        Fixed {
            bits: ((30 - doublings(a.bits as int)) * ONE + log2_digits(
                mantissa(a.bits as int),
                0,
                32,
            )) as i64,
        }
    }
}

/// `a` multiplied by itself `n` times, by squaring: the power of `a * a` to
/// half of `n`, times `a` once more where `n` is odd.
pub open spec fn int_power(a: Fixed, n: nat) -> Fixed
    decreases n,
{
    if n == 0 {
        Fixed { bits: ONE }
    } else if n % 2 == 1 {
        a.times(int_power(a.times(a), n / 2))
    } else {
        int_power(a.times(a), n / 2)
    }
}

/// `a` to the power `b`.
///
/// For a whole `b` the power is found by repeated multiplication, and for a
/// negative whole `b` it is one over that. For any other `b` it is the
/// exponential of `b` times the natural logarithm of `a` where `a` is
/// positive; a zero `a` gives zero for a positive `b` and the greatest number
/// for a negative one; a negative `a` has no such power and gives zero.
pub open spec fn pow_spec(a: Fixed, b: Fixed) -> Fixed {
    if b.bits % ONE == 0 {
        let n = b.bits / ONE;
        if n >= 0 {
            int_power(a, n as nat)
        } else {
            Fixed { bits: ONE }.over(int_power(a, (-n) as nat))
        }
    } else if a.bits > 0 {
        b.times(log2_spec(a).times(Fixed { bits: LN_2 })).exponential()
    } else if a.bits == 0 && b.bits < 0 {
        Fixed { bits: i64::MAX }
    } else {
        Fixed { bits: 0 }
    }
}

/// The logarithm of `a` in base `b`: the quotient of their logarithms to base
/// two.
pub open spec fn log_spec(a: Fixed, b: Fixed) -> Fixed {
    log2_spec(a).over(log2_spec(b))
}

/// A mantissa lies in its range, and it is the number times two to the
/// number of its doublings, which are at most 62.
pub proof fn lemma_mantissa(n: int)
    requires
        0 < n < 2 * MANTISSA_LOW,
    ensures
        MANTISSA_LOW <= mantissa(n) < 2 * MANTISSA_LOW,
        0 <= doublings(n) <= 62,
        mantissa(n) == n * pow2(doublings(n) as nat),
    decreases 2 * MANTISSA_LOW - n,
{
    lemma2_to64();
    lemma2_to64_rest();
    if n < MANTISSA_LOW {
        lemma_mantissa(2 * n);
        let d = doublings(2 * n);
        let p = pow2(d as nat) as int;
        assert(doublings(n) == d + 1);
        assert(mantissa(n) == mantissa(2 * n));
        lemma_pow2_unfold((d + 1) as nat);
        assert(pow2((d + 1) as nat) == 2 * p);
        assert((2 * n) * p == n * (2 * p)) by (nonlinear_arith);
        if d == 62 {
            assert((2 * n) * p >= 2 * p) by (nonlinear_arith)
                requires
                    n >= 1,
                    p >= 0,
            ;
        }
    } else {
        assert(doublings(n) == 0);
        assert(mantissa(n) == n);
        assert(pow2(0) == 1);
        assert(n * 1 == n);
    }
}

/// The logarithm to base two of one is zero.
pub proof fn lemma_log2_of_one()
    ensures
        log2_spec(Fixed { bits: ONE }).bits == 0,
{
    lemma2_to64();
    lemma_log2_of_power_of_two(32);
}

/// A mantissa of exactly one yields only zero digits.
pub proof fn lemma_log2_digits_of_one(acc: int, steps: nat)
    ensures
        log2_digits(MANTISSA_LOW as int, acc, steps) == acc * pow2(steps),
    decreases steps,
{
    lemma2_to64();
    if steps > 0 {
        let m = MANTISSA_LOW as int;
        assert(m * m == 0x1000_0000_0000_0000_0000_0000_0000_0000) by (nonlinear_arith)
            requires
                m == 0x4000_0000_0000_0000,
        ;
        assert((m * m) / m == m);
        lemma_log2_digits_of_one(2 * acc, (steps - 1) as nat);
        lemma_pow2_unfold(steps);
        let p = pow2((steps - 1) as nat) as int;
        assert((2 * acc) * p == acc * (2 * p)) by (nonlinear_arith);
    } else {
        assert(pow2(0) == 1);
        assert(acc * 1 == acc);
    }
}

/// The logarithm to base two of a power of two is its exponent, exactly.
pub proof fn lemma_log2_of_power_of_two(position: nat)
    requires
        position <= 62,
    ensures
        log2_spec(Fixed { bits: pow2(position) as i64 }).bits == (position - 32) * ONE,
{
    lemma2_to64();
    lemma2_to64_rest();
    if position < 62 {
        lemma_pow2_strictly_increases(position, 62);
    }
    let n = pow2(position) as int;
    lemma_mantissa(n);
    let d = doublings(n);
    vstd::arithmetic::power2::lemma_pow2_adds(position, d as nat);
    assert(mantissa(n) == pow2(position + d as nat));
    if position + d < 62 {
        lemma_pow2_strictly_increases(position + d as nat, 62);
    }
    if position + d > 62 {
        lemma_pow2_strictly_increases(62, position + d as nat);
        lemma_pow2_unfold(63);
        if position + d > 63 {
            lemma_pow2_strictly_increases(63, position + d as nat);
        }
    }
    assert(position + d == 62);
    lemma_log2_digits_of_one(0, 32);
    assert(0 * pow2(32) == 0);
}

/// Any number to the power zero is one, and to the power one is itself.
pub proof fn lemma_power_zero_and_one(a: Fixed)
    ensures
        pow_spec(a, Fixed { bits: 0 }) == (Fixed { bits: ONE }),
        pow_spec(a, Fixed { bits: ONE }) == a,
{
    assert(int_power(a, 0) == Fixed { bits: ONE });
    assert(int_power(a.times(a), 0) == Fixed { bits: ONE });
    assert(int_power(a, 1) == a.times(Fixed { bits: ONE }));
    crate::fixed_point::lemma_times_one(a);
}

/// The logarithm of a positive number other than one in its own base is one.
pub proof fn lemma_log_of_base(a: Fixed)
    requires
        a.bits > 0,
        log2_spec(a).bits != 0,
    ensures
        log_spec(a, a) == (Fixed { bits: ONE }),
{
    crate::fixed_point::lemma_quotient_by_itself(log2_spec(a));
}

/// The logarithm to base two, found digit by digit.
pub fn log2(a: Fixed) -> (out: Fixed)
    ensures
        out == log2_spec(a),
{
    if a.bits <= 0 {
        return Fixed { bits: i64::MIN };
    }
    proof {
        lemma_mantissa(a.bits as int);
        lemma2_to64();
        lemma2_to64_rest();
    }
    let mut m: u64 = a.bits as u64;
    let mut lead: i64 = 0;
    while m < MANTISSA_LOW
        invariant
            0 < m < 2 * MANTISSA_LOW,
            0 <= lead,
            lead + doublings(m as int) == doublings(a.bits as int),
            mantissa(m as int) == mantissa(a.bits as int),
            doublings(a.bits as int) <= 62,
        decreases 2 * MANTISSA_LOW - m,
    {
        proof {
            lemma_mantissa(2 * m);
        }
        m = m * 2;
        lead = lead + 1;
    }
    let ghost start = m as int;
    let mut digits: u64 = 0;
    let mut i: u32 = 0;
    while i < 32
        invariant
            i <= 32,
            MANTISSA_LOW <= m < 2 * MANTISSA_LOW,
            digits < pow2(i as nat),
            log2_digits(start, 0, 32) == log2_digits(m as int, digits as int, (32 - i) as nat),
        decreases 32 - i,
    {
        proof {
            lemma2_to64();
            lemma_pow2_unfold((i + 1) as nat);
            lemma_pow2_strictly_increases(i as nat, 32);
            assert(m * m < 0x4000_0000_0000_0000_0000_0000_0000_0000) by (nonlinear_arith)
                requires
                    m < 0x8000_0000_0000_0000,
            ;
            assert(m * m >= 0x1000_0000_0000_0000_0000_0000_0000_0000) by (nonlinear_arith)
                requires
                    m >= 0x4000_0000_0000_0000,
            ;
        }
        let square: u128 = ((m as u128) * (m as u128)) / (MANTISSA_LOW as u128);
        if square >= 2 * (MANTISSA_LOW as u128) {
            digits = 2 * digits + 1;
            m = (square / 2) as u64;
        } else {
            digits = 2 * digits;
            m = square as u64;
        }
        i = i + 1;
    }
    Fixed { bits: (30 - lead) * ONE + (digits as i64) }
}

/// `a` multiplied by itself `n` times, by squaring.
pub fn powi(a: Fixed, n: u32) -> (out: Fixed)
    ensures
        out == int_power(a, n as nat),
    decreases n,
{
    if n == 0 {
        Fixed { bits: ONE }
    } else {
        let rest = powi(a.saturating_mul(a), n / 2);
        if n % 2 == 1 {
            a.saturating_mul(rest)
        } else {
            rest
        }
    }
}

/// `a` to the power `b`, with the exponential computed by CORDIC.
pub fn cordic_powf(a: Fixed, b: Fixed) -> (out: Fixed)
    ensures
        out == pow_spec(a, b),
{
    if b.bits % ONE == 0 {
        let n = b.bits / ONE;
        if n >= 0 {
            powi(a, n as u32)
        } else {
            Fixed { bits: ONE }.saturating_div(powi(a, (-n) as u32))
        }
    } else if a.bits > 0 {
        b.saturating_mul(log2(a).saturating_mul(Fixed { bits: LN_2 })).exp()
    } else if a.bits == 0 && b.bits < 0 {
        Fixed { bits: i64::MAX }
    } else {
        Fixed { bits: 0 }
    }
}

/// The logarithm of `a` in base `b`.
pub fn cordic_log(a: Fixed, b: Fixed) -> (out: Fixed)
    ensures
        out == log_spec(a, b),
{
    log2(a).saturating_div(log2(b))
}

} // verus!
