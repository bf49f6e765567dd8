use vstd::prelude::*;

verus! {

/// Whether an interval end includes its endpoint.
#[derive(Clone, Copy, PartialEq, Eq, Debug)]
pub enum Openness {
    Open,
    Closed,
}

/// A range of scalars between two ends, each either open or closed.
///
/// Nothing requires `low_val` to lie below `high_val`: an interval whose ends
/// are the wrong way round simply contains no point.
#[derive(Clone, Copy, PartialEq, Debug)]
pub struct Interval<T> {
    pub low_val: T,
    pub high_val: T,
    pub low_openness: Openness,
    pub high_openness: Openness,
}

impl<T> Interval<T> {
    pub fn new(low_val: T, high_val: T, low_openness: Openness, high_openness: Openness) -> (out:
        Self)
        ensures
            out.low_val == low_val,
            out.high_val == high_val,
            out.low_openness == low_openness,
            out.high_openness == high_openness,
    {
        Interval { low_val, high_val, low_openness, high_openness }
    }
}

/// The guard of one case of a piecewise function.
#[derive(Clone, Copy, PartialEq, Debug)]
pub enum CaseCondition<T> {
    Otherwise,
    Interval(Interval<T>),
}

/// A formula over one free variable.
///
/// A `Var` carries its name for display only: every variable of a formula
/// stands for the same single input.
#[derive(Debug)]
pub enum Expr<T> {
    Const(T),
    Var(String),
    Add(Box<Expr<T>>, Box<Expr<T>>),
    Sub(Box<Expr<T>>, Box<Expr<T>>),
    Mul(Box<Expr<T>>, Box<Expr<T>>),
    Div(Box<Expr<T>>, Box<Expr<T>>),
    Pow(Box<Expr<T>>, Box<Expr<T>>),
    Log(Box<Expr<T>>, Box<Expr<T>>),
    Neg(Box<Expr<T>>),
    Sin(Box<Expr<T>>),
    Cos(Box<Expr<T>>),
}

/// The mathematical content of an [`Expr`]: the same tree, with each name as
/// the sequence of its characters.
pub enum ExprView<T> {
    Const(T),
    Var(Seq<char>),
    Add(Box<ExprView<T>>, Box<ExprView<T>>),
    Sub(Box<ExprView<T>>, Box<ExprView<T>>),
    Mul(Box<ExprView<T>>, Box<ExprView<T>>),
    Div(Box<ExprView<T>>, Box<ExprView<T>>),
    Pow(Box<ExprView<T>>, Box<ExprView<T>>),
    Log(Box<ExprView<T>>, Box<ExprView<T>>),
    Neg(Box<ExprView<T>>),
    Sin(Box<ExprView<T>>),
    Cos(Box<ExprView<T>>),
}

impl<T> Expr<T> {
    /// The tree that this formula stands for.
    pub open spec fn tree(self) -> ExprView<T>
        decreases self,
    {
        match self {
            Expr::Const(c) => ExprView::Const(c),
            Expr::Var(s) => ExprView::Var(s@),
            Expr::Add(l, r) => ExprView::Add(Box::new(l.tree()), Box::new(r.tree())),
            Expr::Sub(l, r) => ExprView::Sub(Box::new(l.tree()), Box::new(r.tree())),
            Expr::Mul(l, r) => ExprView::Mul(Box::new(l.tree()), Box::new(r.tree())),
            Expr::Div(l, r) => ExprView::Div(Box::new(l.tree()), Box::new(r.tree())),
            Expr::Pow(l, r) => ExprView::Pow(Box::new(l.tree()), Box::new(r.tree())),
            Expr::Log(l, r) => ExprView::Log(Box::new(l.tree()), Box::new(r.tree())),
            Expr::Neg(a) => ExprView::Neg(Box::new(a.tree())),
            Expr::Sin(a) => ExprView::Sin(Box::new(a.tree())),
            Expr::Cos(a) => ExprView::Cos(Box::new(a.tree())),
        }
    }
}

impl<T> View for Expr<T> {
    type V = ExprView<T>;

    open spec fn view(&self) -> ExprView<T> {
        self.tree()
    }
}

impl<T: Copy> Clone for Expr<T> {
    fn clone(&self) -> (out: Self)
        ensures
            out == *self,
        decreases self,
    {
        match self {
            Expr::Const(c) => Expr::Const(*c),
            Expr::Var(s) => Expr::Var(s.clone()),
            Expr::Add(l, r) => Expr::Add(Box::new((**l).clone()), Box::new((**r).clone())),
            Expr::Sub(l, r) => Expr::Sub(Box::new((**l).clone()), Box::new((**r).clone())),
            Expr::Mul(l, r) => Expr::Mul(Box::new((**l).clone()), Box::new((**r).clone())),
            Expr::Div(l, r) => Expr::Div(Box::new((**l).clone()), Box::new((**r).clone())),
            Expr::Pow(l, r) => Expr::Pow(Box::new((**l).clone()), Box::new((**r).clone())),
            Expr::Log(l, r) => Expr::Log(Box::new((**l).clone()), Box::new((**r).clone())),
            Expr::Neg(a) => Expr::Neg(Box::new((**a).clone())),
            Expr::Sin(a) => Expr::Sin(Box::new((**a).clone())),
            Expr::Cos(a) => Expr::Cos(Box::new((**a).clone())),
        }
    }
}

/// A labelled formula, `lhs = rhs`.
#[derive(Debug)]
pub struct Equation<T> {
    pub lhs: String,
    pub rhs: Box<Expr<T>>,
}

/// The mathematical content of an [`Equation`].
pub struct EquationView<T> {
    pub lhs: Seq<char>,
    pub rhs: ExprView<T>,
}

impl<T> View for Equation<T> {
    type V = EquationView<T>;

    open spec fn view(&self) -> EquationView<T> {
        EquationView { lhs: self.lhs@, rhs: self.rhs@ }
    }
}

impl<T: Copy> Clone for Equation<T> {
    fn clone(&self) -> (out: Self)
        ensures
            out == *self,
    {
        Equation { lhs: self.lhs.clone(), rhs: Box::new((*self.rhs).clone()) }
    }
}

impl<T> Equation<T> {
    pub fn new(lhs: String, rhs: Box<Expr<T>>) -> (out: Self)
        ensures
            out.lhs == lhs,
            out.rhs == rhs,
    {
        Self { lhs, rhs }
    }

    pub fn lhs(&self) -> (out: &str)
        ensures
            out@ == self.lhs@,
    {
        self.lhs.as_str()
    }

    pub fn rhs(&self) -> (out: &Expr<T>)
        ensures
            *out == *self.rhs,
    {
        &self.rhs
    }
}

/// A function given by cases: each case pairs a guard with the formula that
/// applies where the guard holds.
#[derive(Debug)]
pub struct Piecewise<T> {
    pub lhs: String,
    pub cases: Vec<(CaseCondition<T>, Box<Expr<T>>)>,
}

/// One case of a piecewise function: its guard and its formula.
pub struct CaseView<T> {
    pub condition: CaseCondition<T>,
    pub body: ExprView<T>,
}

/// The mathematical content of a [`Piecewise`].
pub struct PiecewiseView<T> {
    pub lhs: Seq<char>,
    pub cases: Seq<CaseView<T>>,
}

/// The cases of a piecewise function, each with its formula as a tree.
pub open spec fn case_views<T>(cases: Seq<(CaseCondition<T>, Box<Expr<T>>)>) -> Seq<CaseView<T>> {
    Seq::new(cases.len(), |i: int| CaseView { condition: cases[i].0, body: cases[i].1@ })
}

impl<T> View for Piecewise<T> {
    type V = PiecewiseView<T>;

    open spec fn view(&self) -> PiecewiseView<T> {
        PiecewiseView { lhs: self.lhs@, cases: case_views(self.cases@) }
    }
}

impl<T: Copy> Clone for Piecewise<T> {
    fn clone(&self) -> (out: Self)
        ensures
            out.lhs == self.lhs,
            out.cases@ == self.cases@,
    {
        let mut cases: Vec<(CaseCondition<T>, Box<Expr<T>>)> = Vec::new();
        let mut i: usize = 0;
        while i < self.cases.len()
            invariant
                i <= self.cases.len(),
                cases@ == self.cases@.take(i as int),
            decreases self.cases.len() - i,
        {
            let condition = self.cases[i].0;
            let body = Box::new((*self.cases[i].1).clone());
            cases.push((condition, body));
            assert(cases@ =~= self.cases@.take(i + 1));
            i += 1;
        }
        assert(self.cases@.take(i as int) =~= self.cases@);
        Piecewise { lhs: self.lhs.clone(), cases }
    }
}

impl<T> Piecewise<T> {
    pub fn new(lhs: String, cases: Vec<(CaseCondition<T>, Box<Expr<T>>)>) -> (out: Self)
        ensures
            out.lhs == lhs,
            out.cases == cases,
    {
        Piecewise { lhs, cases }
    }
}

} // verus!
