use equations::ast::Piecewise;
use equations::fixed_point::{Fixed, EXP_HIGH, EXP_LOW, ONE, PI, TAU};
use equations::numeric::Numeric;
use equations::util::{cordic_log, cordic_powf, log2, powi, LN_2};
use equations::{Equation, Expr};

fn fx(v: f64) -> Fixed {
    Fixed { bits: (v * 4294967296.0).round() as i64 }
}

fn val(f: Fixed) -> f64 {
    f.bits as f64 / 4294967296.0
}

fn saturated(v: i128, negative: bool) -> i64 {
    if v >= i64::MIN as i128 && v <= i64::MAX as i128 {
        v as i64
    } else if negative {
        i64::MIN
    } else {
        i64::MAX
    }
}

/// A fixed sequence of bit patterns that covers small, large and extreme
/// numbers of both signs.
fn samples() -> Vec<i64> {
    let mut out = vec![
        0,
        1,
        -1,
        ONE,
        -ONE,
        ONE / 2,
        3 * ONE,
        -3 * ONE,
        PI,
        -PI,
        i64::MAX,
        i64::MIN,
        i64::MAX - 1,
        i64::MIN + 1,
        0x7fff_ffff,
        -0x8000_0000,
    ];
    let mut state: u64 = 0x9e37_79b9_7f4a_7c15;
    for i in 0..200 {
        state = state.wrapping_mul(6364136223846793005).wrapping_add(1442695040888963407);
        let shift = (i % 7) * 8;
        out.push((state as i64) >> shift);
    }
    out
}

#[test]
fn from_int_scales_by_one() {
    assert_eq!(Fixed::from_int(0).bits, 0);
    assert_eq!(Fixed::from_int(3).bits, 3 * ONE);
    assert_eq!(Fixed::from_int(-5).bits, -5 * ONE);
    assert_eq!(Fixed::from_int(i32::MIN).bits, i64::MIN);
    assert_eq!(Fixed::from_int(i32::MAX).bits, (i32::MAX as i64) << 32);
}

#[test]
fn addition_is_exact_and_saturates() {
    assert_eq!(fx(1.5).add(fx(2.25)), fx(3.75));
    assert_eq!(Fixed { bits: i64::MAX }.add(Fixed { bits: 1 }).bits, i64::MAX);
    assert_eq!(Fixed { bits: i64::MIN }.add(Fixed { bits: -1 }).bits, i64::MIN);
    for &a in &samples() {
        for &b in &samples() {
            let expected = saturated(a as i128 + b as i128, a < 0);
            assert_eq!(Fixed { bits: a }.add(Fixed { bits: b }).bits, expected);
        }
    }
}

#[test]
fn subtraction_is_exact_and_saturates() {
    assert_eq!(fx(1.5).sub(fx(2.25)), fx(-0.75));
    assert_eq!(Fixed { bits: i64::MIN }.sub(Fixed { bits: 1 }).bits, i64::MIN);
    assert_eq!(Fixed { bits: i64::MAX }.sub(Fixed { bits: -1 }).bits, i64::MAX);
    for &a in &samples() {
        for &b in &samples() {
            let expected = saturated(a as i128 - b as i128, a < 0);
            assert_eq!(Fixed { bits: a }.sub(Fixed { bits: b }).bits, expected);
        }
    }
}

#[test]
fn multiplication_rounds_down_and_saturates() {
    assert_eq!(fx(1.5).mul(fx(2.0)), fx(3.0));
    assert_eq!(fx(-1.5).mul(fx(2.0)), fx(-3.0));
    // The smallest positive number times a half is below the resolution.
    assert_eq!(Fixed { bits: 1 }.mul(fx(0.5)).bits, 0);
    assert_eq!(Fixed { bits: -1 }.mul(fx(0.5)).bits, -1);
    assert_eq!(Fixed { bits: i64::MAX }.mul(fx(2.0)).bits, i64::MAX);
    assert_eq!(Fixed { bits: i64::MAX }.mul(fx(-2.0)).bits, i64::MIN);
    assert_eq!(Fixed { bits: i64::MIN }.mul(fx(-1.0)).bits, i64::MAX);
    for &a in &samples() {
        for &b in &samples() {
            let product = (a as i128 * b as i128) >> 32;
            let expected = saturated(product, (a < 0) != (b < 0));
            assert_eq!(Fixed { bits: a }.mul(Fixed { bits: b }).bits, expected, "{} * {}", a, b);
        }
    }
}

#[test]
fn division_rounds_towards_zero_and_saturates() {
    assert_eq!(fx(3.0).div(fx(2.0)), fx(1.5));
    assert_eq!(fx(-3.0).div(fx(2.0)), fx(-1.5));
    assert_eq!(Fixed { bits: 1 }.div(fx(3.0)).bits, 0);
    assert_eq!(Fixed { bits: -1 }.div(fx(3.0)).bits, 0);
    assert_eq!(Fixed { bits: i64::MAX }.div(fx(0.5)).bits, i64::MAX);
    assert_eq!(Fixed { bits: i64::MIN }.div(fx(-1.0)).bits, i64::MAX);
    for &a in &samples() {
        for &b in &samples() {
            if b != 0 {
                let quotient = ((a as i128) << 32) / (b as i128);
                let expected = saturated(quotient, (a < 0) != (b < 0));
                assert_eq!(
                    Fixed { bits: a }.div(Fixed { bits: b }).bits,
                    expected,
                    "{} / {}",
                    a,
                    b
                );
            }
        }
    }
}

#[test]
fn division_by_zero_gives_the_end_of_the_range() {
    assert_eq!(fx(1.0).div(fx(0.0)).bits, i64::MAX);
    assert_eq!(fx(-1.0).div(fx(0.0)).bits, i64::MIN);
    assert_eq!(fx(0.0).div(fx(0.0)).bits, 0);
}

#[test]
fn a_number_over_itself_is_one() {
    for v in [1.0, -1.0, 0.5, 3.25, -1000.0, 123456.789] {
        assert_eq!(fx(v).div(fx(v)).bits, ONE);
    }
}

#[test]
fn negation_saturates_at_the_least_number() {
    assert_eq!(fx(1.5).neg(), fx(-1.5));
    assert_eq!(fx(-1.5).neg(), fx(1.5));
    assert_eq!(fx(0.0).neg(), fx(0.0));
    assert_eq!(Fixed { bits: i64::MIN }.neg().bits, i64::MAX);
    assert_eq!(Fixed { bits: i64::MAX }.neg().bits, i64::MIN + 1);
}

#[test]
fn order_is_that_of_the_bits() {
    assert!(fx(1.0).lt(fx(1.5)));
    assert!(!fx(1.5).lt(fx(1.5)));
    assert!(fx(1.5).le(fx(1.5)));
    assert!(fx(-2.0).lt(fx(-1.0)));
    assert!(!fx(2.0).le(fx(-1.0)));
}

#[test]
fn angles_are_brought_within_half_a_turn() {
    assert_eq!(fx(0.0).wrapped().bits, 0);
    assert_eq!(Fixed { bits: PI }.wrapped().bits, PI);
    assert_eq!(Fixed { bits: PI + 1 }.wrapped().bits, PI + 1 - TAU);
    assert_eq!(Fixed { bits: TAU }.wrapped().bits, 0);
    assert_eq!(Fixed { bits: -TAU }.wrapped().bits, 0);
    assert_eq!(Fixed { bits: -1 }.wrapped().bits, -1);
    assert_eq!(Fixed { bits: 3 * TAU + 5 }.wrapped().bits, 5);
    assert_eq!(Fixed { bits: -3 * TAU - 5 }.wrapped().bits, -5);
    for &a in &samples() {
        let w = Fixed { bits: a }.wrapped().bits;
        assert!(-PI <= w && w <= PI);
        assert_eq!((a as i128 - w as i128).rem_euclid(TAU as i128), 0);
    }
}

#[test]
fn sine_and_cosine_match_floating_point() {
    let epsilon = 1e-8;
    let mut i = -314;
    while i <= 314 {
        let x = i as f64 / 100.0;
        assert!((val(fx(x).sin()) - x.sin()).abs() <= epsilon, "sin({})", x);
        assert!((val(fx(x).cos()) - x.cos()).abs() <= epsilon, "cos({})", x);
        i += 1;
    }
}

#[test]
fn sine_and_cosine_of_zero() {
    assert!(val(fx(0.0).sin()).abs() <= 1e-9);
    assert!((val(fx(0.0).cos()) - 1.0).abs() <= 1e-9);
}

#[test]
fn sine_and_cosine_of_large_angles() {
    for x in [10.0f64, -10.0, 100.0, -100.0, 1000.0] {
        assert!((val(fx(x).sin()) - x.sin()).abs() <= 1e-6, "sin({})", x);
        assert!((val(fx(x).cos()) - x.cos()).abs() <= 1e-6, "cos({})", x);
    }
    // The extremes are reduced like any other angle and stay within range.
    for bits in [i64::MAX, i64::MIN] {
        assert!(val(Fixed { bits }.sin()).abs() <= 1.0 + 1e-8);
        assert!(val(Fixed { bits }.cos()).abs() <= 1.0 + 1e-8);
    }
}

#[test]
fn exponential_matches_floating_point() {
    assert_eq!(fx(0.0).exp().bits, ONE);
    for x in [-5.0f64, -1.0, -0.5, 0.25, 0.5, 1.0, 2.0, 5.0, 10.0] {
        let expected = x.exp();
        assert!((val(fx(x).exp()) - expected).abs() <= expected * 1e-8 + 1e-9, "exp({})", x);
    }
}

#[test]
fn exponential_outside_its_range() {
    assert_eq!(Fixed { bits: EXP_LOW - 1 }.exp().bits, 0);
    assert_eq!(fx(-1000.0).exp().bits, 0);
    assert_eq!(Fixed { bits: i64::MIN }.exp().bits, 0);
    assert_eq!(Fixed { bits: EXP_HIGH + 1 }.exp().bits, i64::MAX);
    assert_eq!(Fixed { bits: i64::MAX }.exp().bits, i64::MAX);
    assert!(Fixed { bits: EXP_LOW }.exp().bits >= 0);
    assert!((val(Fixed { bits: EXP_HIGH }.exp()) - 21f64.exp()).abs() <= 10.0);
}

#[test]
fn logarithm_to_base_two() {
    assert_eq!(log2(fx(1.0)).bits, 0);
    assert_eq!(log2(fx(2.0)).bits, ONE);
    assert_eq!(log2(fx(4.0)).bits, 2 * ONE);
    assert_eq!(log2(fx(0.5)).bits, -ONE);
    assert_eq!(log2(Fixed { bits: 1 }).bits, -32 * ONE);
    assert_eq!(log2(Fixed { bits: 1 << 62 }).bits, 30 * ONE);
    assert_eq!(log2(fx(0.0)).bits, i64::MIN);
    assert_eq!(log2(fx(-1.0)).bits, i64::MIN);
    for x in [0.001f64, 0.3, 1.5, 3.0, 10.0, 1000.0, 2147483647.0] {
        let exact = val(fx(x)).log2();
        assert!((val(log2(fx(x))) - exact).abs() <= 1e-9, "log2({})", x);
    }
}

#[test]
fn whole_powers_are_repeated_products() {
    assert_eq!(powi(fx(2.0), 0).bits, ONE);
    assert_eq!(powi(fx(2.0), 1), fx(2.0));
    assert_eq!(powi(fx(2.0), 10), fx(1024.0));
    assert_eq!(powi(fx(-3.0), 3), fx(-27.0));
    assert_eq!(powi(fx(0.5), 4), fx(0.0625));
    assert_eq!(powi(fx(10.0), 10).bits, i64::MAX);
    assert_eq!(powi(fx(0.0), 5).bits, 0);
}

#[test]
fn powers() {
    assert_eq!(cordic_powf(fx(2.0), fx(2.0)), fx(4.0));
    assert_eq!(cordic_powf(fx(3.0), fx(2.0)), fx(9.0));
    assert_eq!(cordic_powf(fx(-3.0), fx(2.0)), fx(9.0));
    assert_eq!(cordic_powf(fx(-3.0), fx(3.0)), fx(-27.0));
    assert_eq!(cordic_powf(fx(2.0), fx(-1.0)), fx(0.5));
    assert_eq!(cordic_powf(fx(7.5), fx(0.0)).bits, ONE);
    assert_eq!(cordic_powf(fx(0.0), fx(0.0)).bits, ONE);
    assert_eq!(cordic_powf(fx(0.0), fx(3.0)).bits, 0);
    assert_eq!(cordic_powf(fx(0.0), fx(-1.0)).bits, i64::MAX);
    for (a, b) in [(2.0, 0.5), (9.0, 0.5), (1.5, 2.5), (10.0, -0.5), (0.25, 1.5)] {
        let expected = f64::powf(a, b);
        assert!((val(cordic_powf(fx(a), fx(b))) - expected).abs() <= 1e-7, "{}^{}", a, b);
    }
}

#[test]
fn powers_without_a_value() {
    // A zero base with a positive or negative fractional exponent.
    assert_eq!(cordic_powf(fx(0.0), fx(0.5)).bits, 0);
    assert_eq!(cordic_powf(fx(0.0), fx(-0.5)).bits, i64::MAX);
    // A negative base with a fractional exponent has no value: zero stands
    // for it.
    assert_eq!(cordic_powf(fx(-2.0), fx(0.5)).bits, 0);
}

#[test]
fn logarithms() {
    assert_eq!(cordic_log(fx(4.0), fx(2.0)), fx(2.0));
    assert_eq!(cordic_log(fx(8.0), fx(2.0)), fx(3.0));
    assert_eq!(cordic_log(fx(2.0), fx(4.0)), fx(0.5));
    assert_eq!(cordic_log(fx(1.0), fx(10.0)).bits, 0);
    for (a, b) in [(100.0, 10.0), (5.0, 3.0), (0.5, 10.0), (7.0, 0.5)] {
        let expected = f64::log(a, b);
        assert!((val(cordic_log(fx(a), fx(b))) - expected).abs() <= 1e-7, "log({}, {})", a, b);
    }
}

#[test]
fn logarithms_without_a_value() {
    // Base one: the logarithm of the base is zero.
    assert_eq!(cordic_log(fx(5.0), fx(1.0)).bits, i64::MAX);
    assert_eq!(cordic_log(fx(0.5), fx(1.0)).bits, i64::MIN);
    assert_eq!(cordic_log(fx(1.0), fx(1.0)).bits, 0);
    // No logarithm of zero or of a negative number.
    assert_eq!(cordic_log(fx(0.0), fx(2.0)).bits, i64::MIN);
    assert_eq!(cordic_log(fx(-1.0), fx(2.0)).bits, i64::MIN);
}

#[test]
fn the_natural_logarithm_of_two() {
    assert!((val(Fixed { bits: LN_2 }) - std::f64::consts::LN_2).abs() <= 1e-9);
    assert!((val(Fixed { bits: PI }) - std::f64::consts::PI).abs() <= 1e-9);
    assert!((val(Fixed { bits: TAU }) - std::f64::consts::TAU).abs() <= 1e-9);
}

#[test]
fn text_of_fixed_point_numbers() {
    assert_eq!(fx(0.0).to_text(), "0");
    assert_eq!(fx(1.0).to_text(), "1");
    assert_eq!(fx(1.5).to_text(), "1.5");
    assert_eq!(fx(-2.25).to_text(), "-2.25");
    assert_eq!(Fixed { bits: i64::MIN }.to_text(), "-2147483648");
    assert_eq!(Fixed { bits: 1 }.to_text(), "0.0000000002");
}

#[test]
fn literals_of_fixed_point_numbers() {
    assert_eq!(Fixed::from_literal("3"), Some(fx(3.0)));
    assert_eq!(Fixed::from_literal("3.0"), Some(fx(3.0)));
    assert_eq!(Fixed::from_literal("1.5"), Some(fx(1.5)));
    assert_eq!(Fixed::from_literal("0.25"), Some(fx(0.25)));
    assert_eq!(Fixed::from_literal("2147483647"), Some(Fixed::from_int(i32::MAX)));
    assert_eq!(Fixed::from_literal("2147483648"), None);
    assert_eq!(Fixed::from_literal("99999999999999999999"), None);
    assert_eq!(Fixed::from_literal(""), None);
}

#[test]
fn text_reads_back_as_the_number() {
    for &bits in &samples() {
        if bits != i64::MIN {
            let number = Fixed { bits };
            let text = number.to_text();
            let back = match text.strip_prefix('-') {
                Some(rest) => Fixed::from_literal(rest).map(|m| m.neg()),
                None => Fixed::from_literal(&text),
            };
            assert_eq!(back, Some(number), "{}", text);
        }
    }
}

#[test]
fn formulas_over_fixed_point() {
    let eq: Equation<Fixed> = Equation::from_str("x = 3.0 + 2.0 + 1.0").unwrap();
    assert_eq!(eq.eval(fx(0.0)), fx(6.0));
    let eq: Equation<Fixed> = Equation::from_str("y = 3 * x^2 + 2*x + 1").unwrap();
    assert_eq!(eq.eval(fx(2.0)), fx(17.0));
    assert_eq!(eq.eval(fx(-2.0)), fx(9.0));
    let eq: Equation<Fixed> = Equation::from_str("x = log(x, 2.0)").unwrap();
    assert_eq!(eq.eval(fx(4.0)), fx(2.0));
    let eq: Equation<Fixed> = Equation::from_str("x = 3.0 - (2.0 - 1.0)").unwrap();
    assert_eq!(eq.eval(fx(4.0)), fx(2.0));
    let eq: Equation<Fixed> = Equation::from_str("x = -(y + 1) / 2").unwrap();
    assert_eq!(eq.eval(fx(2.0)), fx(-1.5));
    let eq: Equation<Fixed> = Equation::from_str("x = sin(0.0) + cos(0.0)").unwrap();
    assert!((val(eq.eval(fx(0.0))) - 1.0).abs() <= 1e-8);
}

#[test]
fn backends_agree_on_sines_and_cosines() {
    let epsilon = 1e-7;
    let tree: Expr<Fixed> = Expr::from_str("sin(x) * cos(x) + sin(2 * x)").unwrap();
    let mut i = -150;
    while i <= 150 {
        let x = i as f64 / 100.0;
        let expected = x.sin() * x.cos() + (2.0 * x).sin();
        assert!((val(tree.eval(fx(x))) - expected).abs() <= epsilon, "at {}", x);
        i += 1;
    }
}

#[test]
fn piecewise_over_fixed_point() {
    let s = "y = {x + 1 if [-5, 5), x + 2 if [5, 10), x if otherwise}";
    let peq: Piecewise<Fixed> = Piecewise::from_str(s).unwrap();
    assert!(peq.well_formed().is_ok());
    assert_eq!(peq.eval(fx(0.0)), fx(1.0));
    assert_eq!(peq.eval(fx(5.0)), fx(7.0));
    assert_eq!(peq.eval(fx(-5.0)), fx(-4.0));
    assert_eq!(peq.eval(fx(-10.0)), fx(-10.0));
    assert_eq!(peq.eval(fx(20.0)), fx(20.0));
    assert_eq!(
        peq.to_string(),
        "y{\n  (x + 1) if [-5, 5)\n  (x + 2) if [5, 10)\n  x if otherwise\n}"
    );
    let back: Piecewise<Fixed> = Piecewise::from_str(&peq.to_string()).unwrap();
    assert_eq!(back.to_string(), peq.to_string());
}

#[test]
fn fixed_point_formulas_read_back() {
    for s in ["(x + 1.5) * -(x - 0.25)", "log(x^2, 2) / sin(-x)", "-0.5^x", "cos(x)^-2"] {
        let tree: Expr<Fixed> = Expr::from_str(s).unwrap();
        let back: Expr<Fixed> = Expr::from_str(&tree.to_string()).unwrap();
        assert_eq!(back.to_string(), tree.to_string());
        for x in [-2.0, -0.5, 0.0, 0.75, 3.0] {
            assert_eq!(back.eval(fx(x)), tree.eval(fx(x)), "{} at {}", s, x);
        }
    }
}
