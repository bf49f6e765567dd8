use equations::ast::Openness::{Closed, Open};
use equations::ast::{CaseCondition, Interval, Piecewise};
use equations::fixed_point::Fixed;
use equations::parse::ParseError;
use equations::{Equation, Expr};

fn n(v: i32) -> Fixed {
    Fixed::from_int(v)
}

fn half() -> Fixed {
    Fixed { bits: 1 << 31 }
}

fn c(v: i32) -> Box<Expr<Fixed>> {
    Box::new(Expr::Const(n(v)))
}

fn x() -> Box<Expr<Fixed>> {
    Box::new(Expr::Var("x".to_string()))
}

fn expr(s: &str) -> Expr<Fixed> {
    Expr::from_str(s).unwrap()
}

fn expr_error(s: &str) -> ParseError {
    match Expr::<Fixed>::from_str(s) {
        Ok(tree) => panic!("{} was read as {}", s, tree.to_string()),
        Err(e) => e,
    }
}

fn at(position: usize) -> ParseError {
    ParseError::Unexpected { position }
}

#[test]
fn text_of_each_kind_of_node() {
    assert_eq!(Expr::Const(half()).to_string(), "0.5");
    assert_eq!(Expr::Const(n(-3)).to_string(), "-3");
    assert_eq!(x().to_string(), "x");
    assert_eq!(Expr::Add(x(), c(1)).to_string(), "(x + 1)");
    assert_eq!(Expr::Sub(x(), c(1)).to_string(), "(x - 1)");
    assert_eq!(Expr::Mul(x(), c(2)).to_string(), "(x * 2)");
    assert_eq!(Expr::Div(x(), c(2)).to_string(), "(x / 2)");
    assert_eq!(Expr::Pow(x(), c(2)).to_string(), "(x^2)");
    assert_eq!(Expr::Log(x(), c(2)).to_string(), "log(x, 2)");
    assert_eq!(Expr::Neg(x()).to_string(), "-x");
    assert_eq!(Expr::Sin(x()).to_string(), "sin(x)");
    assert_eq!(Expr::Cos(x()).to_string(), "cos(x)");
    let nested = Expr::Neg(Box::new(Expr::Mul(Box::new(Expr::Add(x(), c(1))), Box::new(Expr::Sin(x())))));
    assert_eq!(nested.to_string(), "-((x + 1) * sin(x))");
}

#[test]
fn rust_text_of_each_kind_of_node() {
    assert_eq!(Expr::Const(half()).to_rust(), "0.5_f64");
    assert_eq!(Expr::Const(n(-3)).to_rust(), "-3_f64");
    assert_eq!(x().to_rust(), "x");
    assert_eq!(Expr::Add(x(), c(1)).to_rust(), "(x + 1_f64)");
    assert_eq!(Expr::Sub(x(), c(1)).to_rust(), "(x - 1_f64)");
    assert_eq!(Expr::Mul(x(), c(2)).to_rust(), "(x * 2_f64)");
    assert_eq!(Expr::Div(x(), c(2)).to_rust(), "(x / 2_f64)");
    assert_eq!(Expr::Pow(x(), c(2)).to_rust(), "x.powf(2_f64)");
    assert_eq!(Expr::Log(x(), c(2)).to_rust(), "x.log(2_f64)");
    assert_eq!(Expr::Neg(x()).to_rust(), "-x");
    assert_eq!(Expr::Sin(x()).to_rust(), "x.sin()");
    assert_eq!(Expr::Cos(x()).to_rust(), "x.cos()");
    assert_eq!(expr("sin(x + 1)^2").to_rust(), "(x + 1_f64).sin().powf(2_f64)");
}

#[test]
fn text_of_intervals_and_guards() {
    assert_eq!(Interval::new(n(-5), n(5), Closed, Open).to_string(), "[-5, 5)");
    assert_eq!(Interval::new(n(-5), n(5), Open, Closed).to_string(), "(-5, 5]");
    assert_eq!(Interval::new(n(0), half(), Closed, Closed).to_string(), "[0, 0.5]");
    assert_eq!(Interval::new(n(0), half(), Open, Open).to_string(), "(0, 0.5)");
    let guard: CaseCondition<Fixed> = CaseCondition::Otherwise;
    assert_eq!(guard.to_string(), "otherwise");
    let guard = CaseCondition::Interval(Interval::new(n(1), n(2), Open, Closed));
    assert_eq!(guard.to_string(), "(1, 2]");
}

#[test]
fn text_of_equations_and_piecewise_functions() {
    let eq = Equation::new("y".to_string(), Box::new(Expr::Mul(c(3), x())));
    assert_eq!(eq.to_string(), "y = (3 * x)");
    assert_eq!(eq.lhs(), "y");
    assert_eq!(eq.rhs().to_string(), "(3 * x)");
    assert_eq!(eq.clone().to_string(), "y = (3 * x)");
    let none: Piecewise<Fixed> = Piecewise::new("f".to_string(), vec![]);
    assert_eq!(none.to_string(), "f{\n\n}");
    let one = Piecewise::new("f".to_string(), vec![(CaseCondition::Otherwise, x())]);
    assert_eq!(one.to_string(), "f{\n  x if otherwise\n}");
    assert_eq!(one.clone().to_string(), one.to_string());
}

#[test]
fn operators_bind_as_in_arithmetic() {
    assert_eq!(expr("1 + 2 * 3").to_string(), "(1 + (2 * 3))");
    assert_eq!(expr("1 * 2 + 3").to_string(), "((1 * 2) + 3)");
    assert_eq!(expr("1 - 2 - 3").to_string(), "((1 - 2) - 3)");
    assert_eq!(expr("8 / 4 / 2").to_string(), "((8 / 4) / 2)");
    assert_eq!(expr("2 * x ^ 3").to_string(), "(2 * (x^3))");
    assert_eq!(expr("-x ^ 2").to_string(), "-(x^2)");
    assert_eq!(expr("x ^ -2").to_string(), "(x^-2)");
    assert_eq!(expr("x ^ 2 ^ 3").to_string(), "(x^(2^3))");
    assert_eq!(expr("-x * y").to_string(), "(-x * y)");
    assert_eq!(expr("x - -y").to_string(), "(x - -y)");
    assert_eq!(expr("--x").to_string(), "--x");
    assert_eq!(expr("(1 + 2) * 3").to_string(), "((1 + 2) * 3)");
    assert_eq!(expr("log(x + 1, 2 * y)").to_string(), "log((x + 1), (2 * y))");
    assert_eq!(expr("sin(cos(x))").to_string(), "sin(cos(x))");
}

#[test]
fn white_space_is_free() {
    assert_eq!(expr("  1+2  ").to_string(), "(1 + 2)");
    assert_eq!(expr("\t1\n+\r\n2").to_string(), "(1 + 2)");
    assert_eq!(expr("sin ( x )").to_string(), "sin(x)");
    assert_eq!(expr("log ( x , 2 )").to_string(), "log(x, 2)");
    assert_eq!(expr("- x").to_string(), "-x");
}

#[test]
fn names_and_literals() {
    assert_eq!(expr("y0").to_string(), "y0");
    assert_eq!(expr("_tmp_1").to_string(), "_tmp_1");
    assert_eq!(expr("sine").to_string(), "sine");
    assert_eq!(expr("iffy + otherwise_").to_string(), "(iffy + otherwise_)");
    assert_eq!(expr("1.25").to_string(), "1.25");
    assert_eq!(expr("007").to_string(), "7");
    assert_eq!(expr("3.0").to_string(), "3");
}

#[test]
fn malformed_formulas_are_rejected_where_they_go_wrong() {
    assert_eq!(expr_error(""), at(0));
    assert_eq!(expr_error("   "), at(3));
    assert_eq!(expr_error("1 +"), at(3));
    assert_eq!(expr_error("1 + * 2"), at(4));
    assert_eq!(expr_error("(1 + 2"), at(6));
    assert_eq!(expr_error("1 + 2)"), at(5));
    assert_eq!(expr_error("1 2"), at(2));
    assert_eq!(expr_error("x y"), at(2));
    assert_eq!(expr_error("1."), at(1));
    assert_eq!(expr_error(".5"), at(0));
    assert_eq!(expr_error("1.5.2"), at(3));
    assert_eq!(expr_error("2 ^"), at(3));
    assert_eq!(expr_error("sin x"), at(4));
    assert_eq!(expr_error("sin"), at(3));
    assert_eq!(expr_error("cos(x"), at(5));
    assert_eq!(expr_error("log(x)"), at(5));
    assert_eq!(expr_error("log(x, 2"), at(8));
    assert_eq!(expr_error("x # y"), at(2));
    assert_eq!(expr_error("x = 1"), at(2));
}

#[test]
fn reserved_words_are_no_names() {
    assert_eq!(expr_error("if"), at(0));
    assert_eq!(expr_error("otherwise"), at(0));
    assert_eq!(expr_error("1 + if"), at(4));
    assert_eq!(expr_error("2 * otherwise"), at(4));
    assert!(Equation::<Fixed>::from_str("sin = 1").is_err());
    assert!(Equation::<Fixed>::from_str("if = 1").is_err());
    assert!(Piecewise::<Fixed>::from_str("log = {x if otherwise}").is_err());
}

#[test]
fn literals_that_the_backend_cannot_hold_are_rejected() {
    assert_eq!(expr_error("1 + 2147483648"), at(4));
    assert_eq!(expr("1 + 2147483647").to_string(), "(1 + 2147483647)");
}

#[test]
fn text_outside_ascii_is_rejected() {
    assert_eq!(expr_error("x + \u{e9}"), ParseError::NotAscii);
    assert_eq!(expr_error("\u{3c0}"), ParseError::NotAscii);
    assert_eq!(Equation::<Fixed>::from_str("\u{3b1} = 1").err(), Some(ParseError::NotAscii));
    assert_eq!(
        Piecewise::<Fixed>::from_str("f = {x if otherwise} \u{2713}").err(),
        Some(ParseError::NotAscii)
    );
    assert_eq!(Interval::<Fixed>::from_str("[0, 1\u{bd}]").err(), Some(ParseError::NotAscii));
    assert_eq!(CaseCondition::<Fixed>::from_str("\u{f6}therwise").err(), Some(ParseError::NotAscii));
}

#[test]
fn equations_are_read() {
    let eq: Equation<Fixed> = Equation::from_str("  area = 3 * r ^ 2 ").unwrap();
    assert_eq!(eq.lhs(), "area");
    assert_eq!(eq.to_string(), "area = (3 * (r^2))");
    assert_eq!(Equation::<Fixed>::from_str("= 1").err(), Some(at(0)));
    assert_eq!(Equation::<Fixed>::from_str("x 1").err(), Some(at(2)));
    assert_eq!(Equation::<Fixed>::from_str("x = ").err(), Some(at(4)));
    assert_eq!(Equation::<Fixed>::from_str("x = 1 = 2").err(), Some(at(6)));
    assert_eq!(Equation::<Fixed>::from_str("3 = 1").err(), Some(at(0)));
}

#[test]
fn intervals_and_guards_are_read() {
    assert_eq!(Interval::from_str("[-5, 5)"), Ok(Interval::new(n(-5), n(5), Closed, Open)));
    assert_eq!(Interval::from_str(" ( 0 , 0.5 ] "), Ok(Interval::new(n(0), half(), Open, Closed)));
    assert_eq!(Interval::from_str("[- 1,2]"), Ok(Interval::new(n(-1), n(2), Closed, Closed)));
    assert_eq!(Interval::from_str("(3,-4)"), Ok(Interval::new(n(3), n(-4), Open, Open)));
    assert_eq!(Interval::<Fixed>::from_str("0, 1]").err(), Some(at(0)));
    assert_eq!(Interval::<Fixed>::from_str("[0 1]").err(), Some(at(3)));
    assert_eq!(Interval::<Fixed>::from_str("[0, 1").err(), Some(at(5)));
    assert_eq!(Interval::<Fixed>::from_str("[0, x]").err(), Some(at(4)));
    assert_eq!(Interval::<Fixed>::from_str("[0, 1] 2").err(), Some(at(7)));
    assert_eq!(Interval::<Fixed>::from_str("[0, 9999999999]").err(), Some(at(4)));
    assert_eq!(CaseCondition::<Fixed>::from_str("otherwise"), Ok(CaseCondition::Otherwise));
    assert_eq!(
        CaseCondition::from_str("[1, 2)"),
        Ok(CaseCondition::Interval(Interval::new(n(1), n(2), Closed, Open)))
    );
    assert_eq!(CaseCondition::<Fixed>::from_str("others").err(), Some(at(0)));
    assert_eq!(CaseCondition::<Fixed>::from_str("otherwise x").err(), Some(at(10)));
}

#[test]
fn piecewise_functions_are_read() {
    let expected = "y{\n  (x + 1) if [-5, 5)\n  x if otherwise\n}";
    for s in [
        "y = {x + 1 if [-5, 5), x if otherwise}",
        "y{x + 1 if [-5, 5) x if otherwise}",
        "y = {\n  x + 1 if [-5, 5)\n  x if otherwise\n}",
        expected,
    ] {
        let p: Piecewise<Fixed> = Piecewise::from_str(s).unwrap();
        assert_eq!(p.to_string(), expected);
    }
    let none: Piecewise<Fixed> = Piecewise::from_str("f{\n\n}").unwrap();
    assert!(none.cases.is_empty());
    assert_eq!(none.lhs, "f");
    assert_eq!(Piecewise::<Fixed>::from_str("y = x if otherwise").err(), Some(at(4)));
    assert_eq!(Piecewise::<Fixed>::from_str("y = {x if otherwise").err(), Some(at(19)));
    assert_eq!(Piecewise::<Fixed>::from_str("y = {, x if otherwise}").err(), Some(at(5)));
    assert_eq!(Piecewise::<Fixed>::from_str("y = {x if otherwise,}").err(), Some(at(20)));
    assert_eq!(Piecewise::<Fixed>::from_str("y = {x otherwise}").err(), Some(at(7)));
    assert_eq!(Piecewise::<Fixed>::from_str("y = {x if maybe}").err(), Some(at(10)));
    assert_eq!(Piecewise::<Fixed>::from_str("y = {x if otherwise} z").err(), Some(at(21)));
}

#[test]
fn text_reads_back_with_the_same_value() {
    let trees = vec![
        Expr::Const(n(-3)),
        Expr::Neg(c(-3)),
        Expr::Add(c(-1), Box::new(Expr::Neg(x()))),
        Expr::Sub(Box::new(Expr::Neg(c(2))), c(-2)),
        Expr::Mul(Box::new(Expr::Neg(x())), c(-4)),
        Expr::Div(x(), Box::new(Expr::Neg(Box::new(Expr::Neg(c(2)))))),
        Expr::Pow(x(), c(-2)),
        Expr::Pow(Box::new(Expr::Pow(x(), c(2))), Box::new(Expr::Neg(c(1)))),
        Expr::Log(Box::new(Expr::Mul(x(), x())), c(2)),
        Expr::Sin(Box::new(Expr::Cos(Box::new(Expr::Neg(x()))))),
        Expr::Neg(Box::new(Expr::Pow(x(), c(2)))),
    ];
    for tree in trees {
        let back = expr(&tree.to_string());
        for v in [-3, -1, 0, 1, 2, 5] {
            assert_eq!(back.eval(n(v)), tree.eval(n(v)), "{} at {}", tree.to_string(), v);
        }
        let eq = Equation::new("y_1".to_string(), Box::new(tree));
        let back: Equation<Fixed> = Equation::from_str(&eq.to_string()).unwrap();
        assert_eq!(back.lhs(), "y_1");
        for v in [-3, -1, 0, 1, 2, 5] {
            assert_eq!(back.eval(n(v)), eq.eval(n(v)));
        }
    }
}

#[test]
fn a_power_of_a_negation_reads_back_as_the_negation_of_a_power() {
    let tree = Expr::Pow(Box::new(Expr::Neg(c(2))), c(2));
    assert_eq!(tree.eval(n(0)), n(4));
    assert_eq!(tree.to_string(), "(-2^2)");
    let back = expr("(-2^2)");
    assert_eq!(back.eval(n(0)), n(-4));
    let tree = Expr::Pow(c(-2), c(2));
    assert_eq!(tree.eval(n(0)), n(4));
    assert_eq!(expr(&tree.to_string()).eval(n(0)), n(-4));
}

#[test]
fn names_that_are_no_words_do_not_read_back() {
    let tree: Expr<Fixed> = Expr::Var("two words".to_string());
    assert!(Expr::<Fixed>::from_str(&tree.to_string()).is_err());
    let tree: Expr<Fixed> = Expr::Var("".to_string());
    assert!(Expr::<Fixed>::from_str(&tree.to_string()).is_err());
    let tree: Expr<Fixed> = Expr::Var("cos".to_string());
    assert!(Expr::<Fixed>::from_str(&tree.to_string()).is_err());
}

#[test]
fn piecewise_text_reads_back_with_the_same_value() {
    let cases = vec![
        (CaseCondition::Interval(Interval::new(n(-5), half(), Closed, Open)), Box::new(Expr::Add(x(), c(-1)))),
        (CaseCondition::Interval(Interval::new(half(), n(10), Closed, Closed)), Box::new(Expr::Neg(x()))),
        (CaseCondition::Otherwise, c(-7)),
    ];
    let p = Piecewise::new("g".to_string(), cases);
    let back: Piecewise<Fixed> = Piecewise::from_str(&p.to_string()).unwrap();
    assert_eq!(back.lhs, "g");
    assert_eq!(back.cases.len(), 3);
    for k in 0..3 {
        assert_eq!(back.cases[k].0, p.cases[k].0);
    }
    for v in [-9, -5, 0, 1, 10, 11] {
        assert_eq!(back.eval(n(v)), p.eval(n(v)));
    }
    assert_eq!(back.eval(half()), p.eval(half()));
}

#[test]
fn what_is_printable() {
    assert!(expr("(x + 1.5) * -(x - 0.25)").printable());
    assert!(Expr::Const(n(-3)).printable());
    assert!(!Expr::Const(Fixed { bits: i64::MIN }).printable());
    assert!(Expr::Const(Fixed { bits: i64::MAX }).printable());
    assert!(Expr::Pow(x(), c(-2)).printable());
    assert!(Expr::Pow(Box::new(Expr::Sin(Box::new(Expr::Neg(x())))), c(2)).printable());
    assert!(!Expr::Pow(Box::new(Expr::Neg(c(2))), c(2)).printable());
    assert!(!Expr::Pow(c(-2), c(2)).printable());
    assert!(!Expr::<Fixed>::Var("two words".to_string()).printable());
    assert!(!Expr::<Fixed>::Var("".to_string()).printable());
    assert!(!Expr::<Fixed>::Var("log".to_string()).printable());
    assert!(!Expr::<Fixed>::Var("9lives".to_string()).printable());
    assert!(!Expr::<Fixed>::Var("caf\u{e9}".to_string()).printable());
    assert!(Expr::<Fixed>::Var("_x9".to_string()).printable());
    assert!(Expr::Const(n(3)).is_atomic());
    assert!(!Expr::Const(n(-3)).is_atomic());
    assert!(!Expr::Neg(x()).is_atomic());
    assert!(Expr::Add(x(), x()).is_atomic());
}

#[test]
fn what_is_printable_reads_back() {
    let trees = vec![
        Expr::Const(n(-3)),
        Expr::Pow(x(), c(-2)),
        Expr::Pow(Box::new(Expr::Neg(c(2))), c(2)),
        Expr::Pow(c(-2), c(2)),
        Expr::Var("two words".to_string()),
        Expr::Log(Box::new(Expr::Neg(x())), Box::new(Expr::Const(half()))),
    ];
    for tree in trees {
        if tree.printable() {
            let back = expr(&tree.to_string());
            for v in [-3, 0, 2, 7] {
                assert_eq!(back.eval(n(v)), tree.eval(n(v)));
            }
        }
    }
}

#[test]
fn printable_equations_and_piecewise_functions() {
    let eq = Equation::new("y".to_string(), Box::new(Expr::Mul(c(3), x())));
    assert!(eq.printable());
    let eq = Equation::new("if".to_string(), Box::new(Expr::Mul(c(3), x())));
    assert!(!eq.printable());
    let eq = Equation::new("y".to_string(), Box::new(Expr::Pow(c(-3), x())));
    assert!(!eq.printable());
    let good = Interval::new(n(-5), half(), Closed, Open);
    let bad = Interval::new(Fixed { bits: i64::MIN }, n(0), Closed, Open);
    assert!(good.reads_back());
    assert!(!bad.reads_back());
    assert!(CaseCondition::Interval(good).reads_back());
    assert!(!CaseCondition::Interval(bad).reads_back());
    assert!(CaseCondition::<Fixed>::Otherwise.reads_back());
    let p = Piecewise::new(
        "g".to_string(),
        vec![(CaseCondition::Interval(good), x()), (CaseCondition::Otherwise, c(1))],
    );
    assert!(p.printable());
    let p = Piecewise::new(
        "g".to_string(),
        vec![(CaseCondition::Interval(bad), x()), (CaseCondition::Otherwise, c(1))],
    );
    assert!(!p.printable());
    let p: Piecewise<Fixed> = Piecewise::new("g h".to_string(), vec![]);
    assert!(!p.printable());
    let p: Piecewise<Fixed> = Piecewise::new("g".to_string(), vec![]);
    assert!(p.printable());
}
