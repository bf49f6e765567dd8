use equations::ast::Openness::{Closed, Open};
use equations::ast::{CaseCondition, Interval, Openness, Piecewise};
use equations::fixed_point::Fixed;
use equations::piecewise::PiecewiseError;
use equations::Expr;

fn n(v: i32) -> Fixed {
    Fixed::from_int(v)
}

fn interval(low: i32, high: i32, low_openness: Openness, high_openness: Openness) -> Interval<Fixed> {
    Interval::new(n(low), n(high), low_openness, high_openness)
}

fn var() -> Box<Expr<Fixed>> {
    Box::new(Expr::Var("x".to_string()))
}

fn constant(v: i32) -> Box<Expr<Fixed>> {
    Box::new(Expr::Const(n(v)))
}

fn piecewise(intervals: Vec<Interval<Fixed>>, otherwise: bool) -> Piecewise<Fixed> {
    let mut cases = Vec::new();
    let mut tag = 100;
    for i in intervals {
        cases.push((CaseCondition::Interval(i), constant(tag)));
        tag += 1;
    }
    if otherwise {
        cases.push((CaseCondition::Otherwise, constant(-1)));
    }
    Piecewise::new("f".to_string(), cases)
}

fn is_overlap_of(result: Result<(), PiecewiseError<Fixed>>, expected: Interval<Fixed>) -> bool {
    match result {
        Err(PiecewiseError::OverlappingInterval(i)) => i == expected,
        _ => false,
    }
}

#[test]
fn no_case_at_all() {
    let p: Piecewise<Fixed> = Piecewise::new("f".to_string(), vec![]);
    assert!(matches!(p.well_formed(), Err(PiecewiseError::EmptyCases)));
}

#[test]
fn only_otherwise() {
    let p = piecewise(vec![], true);
    assert!(p.well_formed().is_ok());
    assert_eq!(p.eval(n(3)), n(-1));
}

#[test]
fn missing_trailing_otherwise() {
    let p = piecewise(vec![interval(0, 5, Closed, Open)], false);
    assert!(matches!(p.well_formed(), Err(PiecewiseError::MissingTrailingOtherwise)));
    let p = piecewise(vec![interval(0, 5, Closed, Open), interval(5, 9, Closed, Open)], false);
    assert!(matches!(p.well_formed(), Err(PiecewiseError::MissingTrailingOtherwise)));
}

#[test]
fn misplaced_otherwise() {
    let cases = vec![
        (CaseCondition::Interval(interval(0, 5, Closed, Open)), constant(1)),
        (CaseCondition::Otherwise, constant(2)),
        (CaseCondition::Interval(interval(5, 9, Closed, Open)), constant(3)),
        (CaseCondition::Otherwise, constant(4)),
    ];
    let p = Piecewise::new("f".to_string(), cases);
    assert!(matches!(p.well_formed(), Err(PiecewiseError::MisplacedOtherwise)));
    let cases = vec![(CaseCondition::Otherwise, constant(2)), (CaseCondition::Otherwise, constant(4))];
    let p: Piecewise<Fixed> = Piecewise::new("f".to_string(), cases);
    assert!(matches!(p.well_formed(), Err(PiecewiseError::MisplacedOtherwise)));
}

#[test]
fn the_first_defect_is_reported() {
    // An overlap at the second case comes before the misplaced otherwise at
    // the third.
    let cases = vec![
        (CaseCondition::Interval(interval(0, 5, Closed, Closed)), constant(1)),
        (CaseCondition::Interval(interval(4, 9, Closed, Open)), constant(2)),
        (CaseCondition::Otherwise, constant(3)),
        (CaseCondition::Interval(interval(9, 12, Closed, Open)), constant(4)),
    ];
    let p = Piecewise::new("f".to_string(), cases);
    assert!(is_overlap_of(p.well_formed(), interval(4, 9, Closed, Open)));
}

#[test]
fn adjacent_half_open_intervals_are_valid() {
    let p = piecewise(vec![interval(0, 5, Closed, Open), interval(5, 10, Closed, Closed)], true);
    assert!(p.well_formed().is_ok());
}

#[test]
fn adjacent_closed_intervals_overlap() {
    let p = piecewise(vec![interval(0, 5, Closed, Closed), interval(5, 10, Closed, Closed)], true);
    assert!(is_overlap_of(p.well_formed(), interval(5, 10, Closed, Closed)));
}

#[test]
fn a_shared_point_may_be_closed_on_one_side_only() {
    for (high, low, valid) in
        [(Open, Open, true), (Open, Closed, true), (Closed, Open, true), (Closed, Closed, false)]
    {
        let p = piecewise(vec![interval(0, 5, Closed, high), interval(5, 10, low, Open)], true);
        assert_eq!(p.well_formed().is_ok(), valid);
        if !valid {
            assert!(is_overlap_of(p.well_formed(), interval(5, 10, low, Open)));
        }
    }
}

#[test]
fn an_interval_that_starts_too_early_overlaps() {
    for (high, low) in [(Open, Open), (Open, Closed), (Closed, Open), (Closed, Closed)] {
        let p = piecewise(vec![interval(0, 5, Closed, high), interval(4, 10, low, Open)], true);
        assert!(is_overlap_of(p.well_formed(), interval(4, 10, low, Open)));
        let p = piecewise(vec![interval(0, 5, Closed, high), interval(6, 10, low, Open)], true);
        assert!(p.well_formed().is_ok());
    }
}

#[test]
fn the_first_interval_may_start_anywhere() {
    let least = Fixed { bits: i64::MIN };
    for low in [Open, Closed] {
        let first = Interval::new(least, n(0), low, Open);
        let p = piecewise(vec![first, interval(0, 10, Closed, Open)], true);
        assert!(p.well_formed().is_ok());
    }
}

#[test]
fn membership_follows_the_openness_of_each_end() {
    for (low, high) in [(Open, Open), (Open, Closed), (Closed, Open), (Closed, Closed)] {
        let i = interval(2, 4, low, high);
        assert!(!i.includes(n(1)));
        assert_eq!(i.includes(n(2)), low == Closed);
        assert!(i.includes(n(3)));
        assert_eq!(i.includes(n(4)), high == Closed);
        assert!(!i.includes(n(5)));
    }
    assert!(!interval(4, 2, Closed, Closed).includes(n(3)));
    assert!(interval(3, 3, Closed, Closed).includes(n(3)));
    assert!(!interval(3, 3, Closed, Open).includes(n(3)));
}

#[test]
fn exactly_one_case_applies_to_each_point() {
    let intervals = vec![
        interval(-5, 0, Closed, Open),
        interval(0, 5, Closed, Closed),
        interval(5, 8, Open, Open),
        interval(9, 12, Closed, Closed),
    ];
    let p = piecewise(intervals.clone(), true);
    assert!(p.well_formed().is_ok());
    let mut x = -8 * 4;
    while x <= 14 * 4 {
        let at = Fixed { bits: (x as i64) << 30 };
        let matching: Vec<usize> =
            (0..intervals.len()).filter(|&k| intervals[k].includes(at)).collect();
        assert!(matching.len() <= 1);
        let expected = match matching.first() {
            Some(&k) => n(100 + k as i32),
            None => n(-1),
        };
        assert_eq!(p.eval(at), expected);
        x += 1;
    }
}

#[test]
fn an_earlier_case_wins_where_cases_overlap() {
    let p = piecewise(vec![interval(0, 10, Closed, Closed), interval(5, 15, Closed, Closed)], true);
    assert!(p.well_formed().is_err());
    assert_eq!(p.eval(n(7)), n(100));
    assert_eq!(p.eval(n(12)), n(101));
    assert_eq!(p.eval(n(20)), n(-1));
}

#[test]
fn an_interval_turned_round_lets_a_valid_function_cover_a_point_twice() {
    let intervals = vec![
        interval(0, 10, Closed, Closed),
        interval(20, 5, Closed, Closed),
        interval(6, 30, Closed, Closed),
    ];
    let p = piecewise(intervals.clone(), true);
    assert!(p.well_formed().is_ok());
    assert!(intervals[0].includes(n(7)));
    assert!(intervals[2].includes(n(7)));
    assert_eq!(p.eval(n(7)), n(100));
}

#[test]
fn an_otherwise_before_the_end_is_passed_over() {
    let cases = vec![
        (CaseCondition::Otherwise, constant(1)),
        (CaseCondition::Interval(interval(0, 5, Closed, Open)), constant(2)),
        (CaseCondition::Otherwise, constant(3)),
    ];
    let p = Piecewise::new("f".to_string(), cases);
    assert_eq!(p.eval(n(2)), n(2));
    assert_eq!(p.eval(n(7)), n(3));
}

#[test]
fn the_last_case_applies_whatever_its_guard() {
    let p = piecewise(vec![interval(0, 5, Closed, Open), interval(5, 9, Closed, Open)], false);
    assert_eq!(p.eval(n(2)), n(100));
    assert_eq!(p.eval(n(50)), n(101));
}

#[test]
fn every_variable_is_the_one_argument() {
    let tree: Expr<Fixed> = Expr::Sub(
        Box::new(Expr::Var("a".to_string())),
        Box::new(Expr::Var("b".to_string())),
    );
    assert_eq!(tree.eval(n(7)), n(0));
    assert_eq!(var().clone().to_string(), "x");
}

#[test]
fn messages_of_the_errors() {
    let e: PiecewiseError<Fixed> = PiecewiseError::EmptyCases;
    assert_eq!(e.to_string(), "Malformed piecewise function: missing any cases");
    let e = PiecewiseError::OverlappingInterval(interval(5, 10, Closed, Open));
    assert_eq!(e.to_string(), "Malformed piecewise function: overlapping interval [5, 10)");
    let e: PiecewiseError<Fixed> = PiecewiseError::MisplacedOtherwise;
    assert_eq!(
        e.to_string(),
        "Malformed piecewise function: \"otherwise\" should only be the last piecewise case"
    );
    let e: PiecewiseError<Fixed> = PiecewiseError::MissingTrailingOtherwise;
    assert_eq!(
        e.to_string(),
        "Malformed piecewise function: the last case should always be \"otherwise\""
    );
}

#[test]
fn ends_that_ascend() {
    let p = piecewise(
        vec![interval(-5, 0, Closed, Open), interval(0, 5, Closed, Closed), interval(5, 8, Open, Open)],
        true,
    );
    assert!(p.well_formed().is_ok());
    assert!(p.ends_ascend());
    let p = piecewise(vec![], true);
    assert!(p.ends_ascend());
    let p = piecewise(vec![interval(5, 1, Closed, Open), interval(2, 10, Closed, Open)], true);
    assert!(p.well_formed().is_ok());
    assert!(p.ends_ascend());
    let p = piecewise(
        vec![
            interval(0, 10, Closed, Closed),
            interval(20, 5, Closed, Closed),
            interval(6, 30, Closed, Closed),
        ],
        true,
    );
    assert!(p.well_formed().is_ok());
    assert!(!p.ends_ascend());
    let p = piecewise(
        vec![interval(0, 5, Open, Closed), interval(5, 5, Open, Open), interval(5, 6, Closed, Closed)],
        true,
    );
    assert!(p.well_formed().is_ok());
    assert!(!p.ends_ascend());
    assert_eq!(p.eval(n(5)), n(100));
}
