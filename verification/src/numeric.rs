use vstd::prelude::*;

verus! {

/// The operations a scalar type offers to formulas.
///
/// Every operation is total and deterministic: each executable method returns
/// exactly what its specification function says, so a formula can be
/// evaluated the same way over any backend. A backend states what its
/// operations compute by overriding the specification functions; one that
/// leaves them as they are says nothing about its results.
pub trait Numeric: Copy {
    /// The place of the scalar on the number line: scalars compare as their
    /// ranks do.
    open spec fn rank(self) -> int {
        arbitrary()
    }

    open spec fn add_spec(self, rhs: Self) -> Self {
        arbitrary()
    }

    open spec fn sub_spec(self, rhs: Self) -> Self {
        arbitrary()
    }

    open spec fn mul_spec(self, rhs: Self) -> Self {
        arbitrary()
    }

    open spec fn div_spec(self, rhs: Self) -> Self {
        arbitrary()
    }

    /// `self` raised to the power `exponent`.
    open spec fn pow_spec(self, exponent: Self) -> Self {
        arbitrary()
    }

    /// The logarithm of `self` in the given base.
    open spec fn log_spec(self, base: Self) -> Self {
        arbitrary()
    }

    open spec fn neg_spec(self) -> Self {
        arbitrary()
    }

    open spec fn sin_spec(self) -> Self {
        arbitrary()
    }

    open spec fn cos_spec(self) -> Self {
        arbitrary()
    }

    /// The canonical text of the scalar.
    open spec fn text(self) -> Seq<char> {
        arbitrary()
    }

    /// The scalar that an unsigned decimal literal denotes, if the backend
    /// can hold it.
    open spec fn literal(digits: Seq<char>) -> Option<Self> {
        arbitrary()
    }

    /// Whether the two scalars are one and the same.
    fn same(self, rhs: Self) -> (out: bool)
        ensures
            out == (self == rhs),
    ;

    fn lt(self, rhs: Self) -> (out: bool)
        ensures
            out == (self.rank() < rhs.rank()),
    ;

    fn le(self, rhs: Self) -> (out: bool)
        ensures
            out == (self.rank() <= rhs.rank()),
    ;

    fn add(self, rhs: Self) -> (out: Self)
        ensures
            out == self.add_spec(rhs),
    ;

    fn sub(self, rhs: Self) -> (out: Self)
        ensures
            out == self.sub_spec(rhs),
    ;

    fn mul(self, rhs: Self) -> (out: Self)
        ensures
            out == self.mul_spec(rhs),
    ;

    fn div(self, rhs: Self) -> (out: Self)
        ensures
            out == self.div_spec(rhs),
    ;

    fn pow(self, exponent: Self) -> (out: Self)
        ensures
            out == self.pow_spec(exponent),
    ;

    fn log(self, base: Self) -> (out: Self)
        ensures
            out == self.log_spec(base),
    ;

    fn neg(self) -> (out: Self)
        ensures
            out == self.neg_spec(),
    ;

    fn sin(self) -> (out: Self)
        ensures
            out == self.sin_spec(),
    ;

    fn cos(self) -> (out: Self)
        ensures
            out == self.cos_spec(),
    ;

    fn to_text(self) -> (out: String)
        ensures
            out@ == self.text(),
    ;

    fn from_literal(digits: &str) -> (out: Option<Self>)
        ensures
            out == Self::literal(digits@),
    ;
}

} // verus!
