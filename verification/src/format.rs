use crate::ast::{
    CaseCondition, CaseView, Equation, EquationView, Expr, ExprView, Interval, Openness, Piecewise,
    PiecewiseView,
};
use crate::numeric::Numeric;
use crate::piecewise::PiecewiseError;
use vstd::prelude::*;
use vstd::string::StringExecFns;

verus! {

impl<T: Numeric> ExprView<T> {
    /// The canonical text of the formula. Every binary node is wrapped in
    /// parentheses, so the text reads back the same under any precedence of
    /// the operators.
    pub open spec fn text(self) -> Seq<char>
        decreases self,
    {
        match self {
            ExprView::Const(c) => c.text(),
            ExprView::Var(s) => s,
            ExprView::Add(l, r) => "("@ + l.text() + " + "@ + r.text() + ")"@,
            ExprView::Sub(l, r) => "("@ + l.text() + " - "@ + r.text() + ")"@,
            ExprView::Mul(l, r) => "("@ + l.text() + " * "@ + r.text() + ")"@,
            ExprView::Div(l, r) => "("@ + l.text() + " / "@ + r.text() + ")"@,
            ExprView::Pow(l, r) => "("@ + l.text() + "^"@ + r.text() + ")"@,
            ExprView::Log(l, r) => "log("@ + l.text() + ", "@ + r.text() + ")"@,
            ExprView::Neg(a) => "-"@ + a.text(),
            ExprView::Sin(a) => "sin("@ + a.text() + ")"@,
            ExprView::Cos(a) => "cos("@ + a.text() + ")"@,
        }
    }

    /// The formula as an expression of Rust over `f64`: constants carry the
    /// suffix `_f64`, and powers, logarithms, sines and cosines are method
    /// calls on their first operand.
    pub open spec fn rust_text(self) -> Seq<char>
        decreases self,
    {
        match self {
            ExprView::Const(c) => c.text() + "_f64"@,
            ExprView::Var(s) => s,
            ExprView::Add(l, r) => "("@ + l.rust_text() + " + "@ + r.rust_text() + ")"@,
            ExprView::Sub(l, r) => "("@ + l.rust_text() + " - "@ + r.rust_text() + ")"@,
            ExprView::Mul(l, r) => "("@ + l.rust_text() + " * "@ + r.rust_text() + ")"@,
            ExprView::Div(l, r) => "("@ + l.rust_text() + " / "@ + r.rust_text() + ")"@,
            ExprView::Pow(l, r) => l.rust_text() + ".powf("@ + r.rust_text() + ")"@,
            ExprView::Log(l, r) => l.rust_text() + ".log("@ + r.rust_text() + ")"@,
            ExprView::Neg(a) => "-"@ + a.rust_text(),
            ExprView::Sin(a) => a.rust_text() + ".sin()"@,
            ExprView::Cos(a) => a.rust_text() + ".cos()"@,
        }
    }
}

/// `open`, then `left`, `middle`, `right` and `close`, one after the other.
fn bracket(open: &str, left: &str, middle: &str, right: &str, close: &str) -> (out: String)
    ensures
        out@ == open@ + left@ + middle@ + right@ + close@,
{
    let mut out = String::from_str(open);
    out.append(left);
    out.append(middle);
    out.append(right);
    out.append(close);
    out
}

impl<T: Numeric> Expr<T> {
    /// Renders the formula in the canonical notation.
    pub fn to_string(&self) -> (out: String)
        ensures
            out@ == self@.text(),
        decreases self,
    {
        match self {
            Expr::Const(c) => c.to_text(),
            Expr::Var(s) => s.clone(),
            Expr::Add(l, r) => bracket(
                "(",
                l.to_string().as_str(),
                " + ",
                r.to_string().as_str(),
                ")",
            ),
            Expr::Sub(l, r) => bracket(
                "(",
                l.to_string().as_str(),
                " - ",
                r.to_string().as_str(),
                ")",
            ),
            Expr::Mul(l, r) => bracket(
                "(",
                l.to_string().as_str(),
                " * ",
                r.to_string().as_str(),
                ")",
            ),
            Expr::Div(l, r) => bracket(
                "(",
                l.to_string().as_str(),
                " / ",
                r.to_string().as_str(),
                ")",
            ),
            Expr::Pow(l, r) => bracket(
                "(",
                l.to_string().as_str(),
                "^",
                r.to_string().as_str(),
                ")",
            ),
            Expr::Log(l, r) => bracket(
                "log(",
                l.to_string().as_str(),
                ", ",
                r.to_string().as_str(),
                ")",
            ),
            Expr::Neg(a) => String::from_str("-").concat(a.to_string().as_str()),
            Expr::Sin(a) => String::from_str("sin(").concat(a.to_string().as_str()).concat(")"),
            Expr::Cos(a) => String::from_str("cos(").concat(a.to_string().as_str()).concat(")"),
        }
    }

    /// Renders the formula as an expression of Rust over `f64`.
    pub fn to_rust(&self) -> (out: String)
        ensures
            out@ == self@.rust_text(),
        decreases self,
    {
        match self {
            Expr::Const(c) => c.to_text().concat("_f64"),
            Expr::Var(s) => s.clone(),
            Expr::Add(l, r) => bracket(
                "(",
                l.to_rust().as_str(),
                " + ",
                r.to_rust().as_str(),
                ")",
            ),
            Expr::Sub(l, r) => bracket(
                "(",
                l.to_rust().as_str(),
                " - ",
                r.to_rust().as_str(),
                ")",
            ),
            Expr::Mul(l, r) => bracket(
                "(",
                l.to_rust().as_str(),
                " * ",
                r.to_rust().as_str(),
                ")",
            ),
            Expr::Div(l, r) => bracket(
                "(",
                l.to_rust().as_str(),
                " / ",
                r.to_rust().as_str(),
                ")",
            ),
            Expr::Pow(l, r) => l.to_rust().concat(".powf(").concat(r.to_rust().as_str()).concat(")"),
            Expr::Log(l, r) => l.to_rust().concat(".log(").concat(r.to_rust().as_str()).concat(")"),
            Expr::Neg(a) => String::from_str("-").concat(a.to_rust().as_str()),
            Expr::Sin(a) => a.to_rust().concat(".sin()"),
            Expr::Cos(a) => a.to_rust().concat(".cos()"),
        }
    }
}

impl<T: Numeric> EquationView<T> {
    /// The canonical text: the label, an equals sign and the formula.
    pub open spec fn text(self) -> Seq<char> {
        self.lhs + " = "@ + self.rhs.text()
    }
}

impl<T: Numeric> Equation<T> {
    /// Renders the equation in the canonical notation.
    pub fn to_string(&self) -> (out: String)
        ensures
            out@ == self@.text(),
    {
        self.lhs.clone().concat(" = ").concat(self.rhs.to_string().as_str())
    }
}

impl<T: Numeric> Interval<T> {
    /// The canonical text: the two ends between brackets, square where the
    /// end is closed and round where it is open.
    pub open spec fn text(self) -> Seq<char> {
        (match self.low_openness {
            Openness::Closed => "["@,
            Openness::Open => "("@,
        }) + self.low_val.text() + ", "@ + self.high_val.text() + (match self.high_openness {
            Openness::Closed => "]"@,
            Openness::Open => ")"@,
        })
    }

    /// Renders the interval in the canonical notation.
    pub fn to_string(&self) -> (out: String)
        ensures
            out@ == self.text(),
    {
        let open = match self.low_openness {
            Openness::Closed => "[",
            Openness::Open => "(",
        };
        let close = match self.high_openness {
            Openness::Closed => "]",
            Openness::Open => ")",
        };
        bracket(
            open,
            self.low_val.to_text().as_str(),
            ", ",
            self.high_val.to_text().as_str(),
            close,
        )
    }
}

impl<T: Numeric> CaseCondition<T> {
    /// The canonical text: that of the interval, or the word `otherwise`.
    pub open spec fn text(self) -> Seq<char> {
        match self {
            CaseCondition::Otherwise => "otherwise"@,
            CaseCondition::Interval(i) => i.text(),
        }
    }

    /// Renders the guard in the canonical notation.
    pub fn to_string(&self) -> (out: String)
        ensures
            out@ == self.text(),
    {
        match self {
            CaseCondition::Otherwise => String::from_str("otherwise"),
            CaseCondition::Interval(i) => i.to_string(),
        }
    }
}

impl<T: Numeric> CaseView<T> {
    /// The line of the case: two spaces, the formula, `if` and the guard.
    pub open spec fn text(self) -> Seq<char> {
        "  "@ + self.body.text() + " if "@ + self.condition.text()
    }
}

impl<T: Numeric> PiecewiseView<T> {
    /// The lines of the first `count` cases, joined by line breaks.
    pub open spec fn lines(self, count: int) -> Seq<char>
        decreases count,
    {
        if count <= 0 {
            Seq::empty()
        } else if count == 1 {
            self.cases[0].text()
        } else {
            self.lines(count - 1) + "\n"@ + self.cases[count - 1].text()
        }
    }

    /// The canonical text: the label, then the lines of the cases between
    /// braces.
    pub open spec fn text(self) -> Seq<char> {
        self.lhs + "{\n"@ + self.lines(self.cases.len() as int) + "\n}"@
    }
}

impl<T: Numeric> Piecewise<T> {
    /// Renders the piecewise function in the canonical notation.
    pub fn to_string(&self) -> (out: String)
        ensures
            out@ == self@.text(),
    {
        let mut lines = String::new();
        let mut i: usize = 0;
        while i < self.cases.len()
            invariant
                i <= self.cases.len(),
                lines@ == self@.lines(i as int),
            decreases self.cases.len() - i,
        {
            let line = bracket(
                "  ",
                self.cases[i].1.to_string().as_str(),
                " if ",
                self.cases[i].0.to_string().as_str(),
                "",
            );
            proof {
                reveal_strlit("");
                assert(line@ =~= self@.cases[i as int].text());
            }
            if i > 0 {
                lines.append("\n");
            } else {
                assert(lines@ + line@ =~= line@);
            }
            lines.append(line.as_str());
            i += 1;
        }
        self.lhs.clone().concat("{\n").concat(lines.as_str()).concat("\n}")
    }
}

impl<T: Numeric> PiecewiseError<T> {
    /// What the error says, with the interval at fault in canonical text.
    pub open spec fn message_text(self) -> Seq<char> {
        match self {
            PiecewiseError::EmptyCases => "Malformed piecewise function: missing any cases"@,
            PiecewiseError::OverlappingInterval(i) => "Malformed piecewise function: overlapping interval "@
                + i.text(),
            PiecewiseError::MisplacedOtherwise => "Malformed piecewise function: \"otherwise\" should only be the last piecewise case"@,
            PiecewiseError::MissingTrailingOtherwise => "Malformed piecewise function: the last case should always be \"otherwise\""@,
        }
    }

    /// Renders the error as a sentence.
    pub fn to_string(&self) -> (out: String)
        ensures
            out@ == self.message_text(),
    {
        match self {
            PiecewiseError::EmptyCases => String::from_str(
                "Malformed piecewise function: missing any cases",
            ),
            PiecewiseError::OverlappingInterval(i) => String::from_str(
                "Malformed piecewise function: overlapping interval ",
            ).concat(i.to_string().as_str()),
            PiecewiseError::MisplacedOtherwise => String::from_str(
                "Malformed piecewise function: \"otherwise\" should only be the last piecewise case",
            ),
            PiecewiseError::MissingTrailingOtherwise => String::from_str(
                "Malformed piecewise function: the last case should always be \"otherwise\"",
            ),
        }
    }
}

} // verus!
