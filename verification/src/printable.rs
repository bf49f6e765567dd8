use crate::ast::{CaseCondition, Equation, Expr, Interval, Piecewise};
use crate::lexer::{
    char_at, digit, is_word_char, lemma_word_end, letter, reserved, scan_number, scan_word,
};
use crate::numeric::Numeric;
use crate::roundtrip::{is_name, is_plain_number, lemma_number_chars, reads_back, reads_plain};
use vstd::prelude::*;
use vstd::string::StrSliceExecFns;

verus! {

/// Whether the text is a decimal literal without a sign.
pub fn plain_number(t: &str) -> (out: bool)
    ensures
        out == is_plain_number(t@),
{
    if !t.is_ascii() {
        proof {
            if is_plain_number(t@) {
                lemma_number_chars(t@);
                assert forall|k: int| 0 <= k < t@.len() implies '\0' <= #[trigger] t@[k]
                    <= '\u{7f}' by {
                    assert(crate::lexer::is_digit(t@[k]) || t@[k] == '.');
                }
            }
        }
        return false;
    }
    let len = t.unicode_len();
    len > 0 && digit(char_at(t, 0)) && scan_number(t, len, 0) == len
}

/// Whether the text can be the name of a variable or the label of a
/// definition.
pub fn name(w: &str) -> (out: bool)
    ensures
        out == is_name(w@),
{
    if !w.is_ascii() {
        proof {
            if is_name(w@) {
                assert forall|k: int| 0 <= k < w@.len() implies '\0' <= #[trigger] w@[k]
                    <= '\u{7f}' by {
                    assert(is_word_char(w@[k]));
                }
            }
        }
        return false;
    }
    let len = w.unicode_len();
    if len == 0 || !letter(char_at(w, 0)) {
        return false;
    }
    let end = scan_word(w, len, 0);
    proof {
        lemma_word_end(w@, 0);
        assert(w@.subrange(0, len as int) =~= w@);
    }
    end == len && !reserved(w, len, 0, len)
}

/// Whether the text of the constant is an unsigned literal that reads as the
/// constant.
pub fn constant_reads_plain<T: Numeric>(c: T) -> (out: bool)
    ensures
        out == reads_plain(c),
{
    let text = c.to_text();
    if plain_number(text.as_str()) {
        match T::from_literal(text.as_str()) {
            Some(value) => value.same(c),
            None => false,
        }
    } else {
        false
    }
}

/// Whether the text of the constant reads back as the constant.
pub fn constant_reads_back<T: Numeric>(c: T) -> (out: bool)
    ensures
        out == reads_back(c),
{
    if constant_reads_plain(c) {
        return true;
    }
    let text = c.to_text();
    let t = text.as_str();
    let len = t.unicode_len();
    if len <= 1 || t.get_char(0) != '-' {
        return false;
    }
    let rest = t.substring_char(1, len);
    if plain_number(rest) {
        match T::from_literal(rest) {
            Some(value) => value.neg().same(c),
            None => false,
        }
    } else {
        false
    }
}

impl<T: Numeric> Expr<T> {
    /// Whether the text of the formula begins with an atom.
    pub fn is_atomic(&self) -> (out: bool)
        ensures
            out == self@.is_atomic(),
    {
        match self {
            Expr::Const(c) => constant_reads_plain(*c),
            Expr::Neg(_) => false,
            _ => true,
        }
    }

    /// Whether the text of the formula can be read back, with the same value
    /// at every argument.
    pub fn printable(&self) -> (out: bool)
        ensures
            out == self@.printable(),
        decreases self,
    {
        match self {
            Expr::Const(c) => constant_reads_back(*c),
            Expr::Var(w) => name(w.as_str()),
            Expr::Add(l, r) => l.printable() && r.printable(),
            Expr::Sub(l, r) => l.printable() && r.printable(),
            Expr::Mul(l, r) => l.printable() && r.printable(),
            Expr::Div(l, r) => l.printable() && r.printable(),
            Expr::Pow(l, r) => l.printable() && r.printable() && l.is_atomic(),
            Expr::Log(l, r) => l.printable() && r.printable(),
            Expr::Neg(a) => a.printable(),
            Expr::Sin(a) => a.printable(),
            Expr::Cos(a) => a.printable(),
        }
    }
}

impl<T: Numeric> Equation<T> {
    /// Whether the text of the equation can be read back.
    pub fn printable(&self) -> (out: bool)
        ensures
            out == self@.printable(),
    {
        name(self.lhs.as_str()) && self.rhs.printable()
    }
}

impl<T: Numeric> Interval<T> {
    /// Whether the text of the interval can be read back.
    pub fn reads_back(&self) -> (out: bool)
        ensures
            out == self.printable(),
    {
        constant_reads_back(self.low_val) && constant_reads_back(self.high_val)
    }
}

impl<T: Numeric> CaseCondition<T> {
    /// Whether the text of the guard can be read back.
    pub fn reads_back(&self) -> (out: bool)
        ensures
            out == self.printable(),
    {
        match self {
            CaseCondition::Otherwise => true,
            CaseCondition::Interval(i) => i.reads_back(),
        }
    }
}

impl<T: Numeric> Piecewise<T> {
    /// Whether the text of the piecewise function can be read back.
    pub fn printable(&self) -> (out: bool)
        ensures
            out == self@.printable(),
    {
        if !name(self.lhs.as_str()) {
            return false;
        }
        let mut i: usize = 0;
        while i < self.cases.len()
            invariant
                i <= self.cases.len(),
                is_name(self.lhs@),
                forall|k: int| 0 <= k < i ==> (#[trigger] self@.cases[k]).printable(),
            decreases self.cases.len() - i,
        {
            if !(self.cases[i].1.printable() && self.cases[i].0.reads_back()) {
                assert(!self@.cases[i as int].printable());
                return false;
            }
            i += 1;
        }
        true
    }
}

} // verus!
