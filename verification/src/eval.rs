use crate::ast::{CaseCondition, Equation, EquationView, Expr, ExprView, Interval, Openness};
use crate::numeric::Numeric;
use vstd::prelude::*;

verus! {

impl<T: Numeric> ExprView<T> {
    /// The value of the formula at `arg`: each node combines the values of its
    /// children with the backend operation of its kind, a constant is itself,
    /// and every variable, whatever its name, is `arg`.
    pub open spec fn eval(self, arg: T) -> T
        decreases self,
    {
        match self {
            ExprView::Const(c) => c,
            ExprView::Var(_) => arg,
            ExprView::Add(l, r) => l.eval(arg).add_spec(r.eval(arg)),
            ExprView::Sub(l, r) => l.eval(arg).sub_spec(r.eval(arg)),
            ExprView::Mul(l, r) => l.eval(arg).mul_spec(r.eval(arg)),
            ExprView::Div(l, r) => l.eval(arg).div_spec(r.eval(arg)),
            ExprView::Pow(l, r) => l.eval(arg).pow_spec(r.eval(arg)),
            ExprView::Log(l, r) => l.eval(arg).log_spec(r.eval(arg)),
            ExprView::Neg(a) => a.eval(arg).neg_spec(),
            ExprView::Sin(a) => a.eval(arg).sin_spec(),
            ExprView::Cos(a) => a.eval(arg).cos_spec(),
        }
    }
}

impl<T: Numeric> Expr<T> {
    /// Evaluates the formula at `arg`, left operand before right.
    pub fn eval(&self, arg: T) -> (out: T)
        ensures
            out == self@.eval(arg),
        decreases self,
    {
        match self {
            Expr::Const(c) => *c,
            Expr::Var(_) => arg,
            Expr::Add(l, r) => {
                let a = l.eval(arg);
                let b = r.eval(arg);
                a.add(b)
            },
            Expr::Sub(l, r) => {
                let a = l.eval(arg);
                let b = r.eval(arg);
                a.sub(b)
            },
            Expr::Mul(l, r) => {
                let a = l.eval(arg);
                let b = r.eval(arg);
                a.mul(b)
            },
            Expr::Div(l, r) => {
                let a = l.eval(arg);
                let b = r.eval(arg);
                a.div(b)
            },
            Expr::Pow(l, r) => {
                let a = l.eval(arg);
                let b = r.eval(arg);
                a.pow(b)
            },
            Expr::Log(l, r) => {
                let a = l.eval(arg);
                let b = r.eval(arg);
                a.log(b)
            },
            Expr::Neg(a) => a.eval(arg).neg(),
            Expr::Sin(a) => a.eval(arg).sin(),
            Expr::Cos(a) => a.eval(arg).cos(),
        }
    }
}

impl<T: Numeric> EquationView<T> {
    /// The value of the right-hand side at `arg`.
    pub open spec fn eval(self, arg: T) -> T {
        self.rhs.eval(arg)
    }
}

impl<T: Numeric> Equation<T> {
    pub fn eval(&self, arg: T) -> (out: T)
        ensures
            out == self@.eval(arg),
    {
        self.rhs.eval(arg)
    }
}

impl<T: Numeric> Interval<T> {
    /// Whether `x` lies in the interval: above the low end and below the high
    /// end, each end counting as inside exactly when it is closed.
    pub open spec fn contains(self, x: T) -> bool {
        &&& match self.low_openness {
            Openness::Closed => self.low_val.rank() <= x.rank(),
            Openness::Open => self.low_val.rank() < x.rank(),
        }
        &&& match self.high_openness {
            Openness::Closed => x.rank() <= self.high_val.rank(),
            Openness::Open => x.rank() < self.high_val.rank(),
        }
    }

    /// Tests whether `x` lies in the interval.
    pub fn includes(&self, x: T) -> (out: bool)
        ensures
            out == self.contains(x),
    {
        let above = match self.low_openness {
            Openness::Closed => self.low_val.le(x),
            Openness::Open => self.low_val.lt(x),
        };
        let below = match self.high_openness {
            Openness::Closed => x.le(self.high_val),
            Openness::Open => x.lt(self.high_val),
        };
        above && below
    }
}

impl<T: Numeric> CaseCondition<T> {
    /// Whether the guard is an interval that contains `x`. An `Otherwise`
    /// guard admits nothing by itself: it only catches what no interval took.
    pub open spec fn admits(self, x: T) -> bool {
        match self {
            CaseCondition::Otherwise => false,
            CaseCondition::Interval(i) => i.contains(x),
        }
    }
}

} // verus!
