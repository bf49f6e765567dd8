use crate::ast::{Expr, ExprView};
use crate::lexer::{
    digit, is_digit, is_letter, is_reserved, lemma_number_end, lemma_skip_spaces, lemma_word_end,
    letter, number_end, peek, peek_at, reserved, scan_number, scan_word, skip, skip_spaces, spells,
    word_end,
};
use crate::numeric::Numeric;
use vstd::prelude::*;
use vstd::string::{StrSliceExecFns, StringExecFns};

verus! {

/// Why a text could not be read.
#[derive(Clone, Copy, PartialEq, Eq, Debug)]
pub enum ParseError {
    /// The text holds a character outside ASCII.
    NotAscii,
    /// The character at `position`, or the end of the text there, is not what
    /// the notation allows at that point.
    Unexpected { position: usize },
}

/// A sum: terms joined by `+` and `-`, taken from the left.
pub open spec fn expr_at<T: Numeric>(s: Seq<char>, i: int) -> Result<(ExprView<T>, int), int>
    decreases s.len() - i, 6int,
{
    if !(0 <= i <= s.len()) {
        Err(i)
    } else {
        match term_at::<T>(s, i) {
            Ok((left, j)) => if i < j <= s.len() {
                sum_tail(s, j, left)
            } else {
                Err(i)
            },
            Err(at) => Err(at),
        }
    }
}

/// What follows the first terms of a sum, whose value so far is `left`.
pub open spec fn sum_tail<T: Numeric>(s: Seq<char>, i: int, left: ExprView<T>) -> Result<
    (ExprView<T>, int),
    int,
>
    decreases s.len() - i, 0int,
{
    if !(0 <= i <= s.len()) {
        Err(i)
    } else {
        let k = skip_spaces(s, i);
        let c = peek(s, k);
        if c == '+' || c == '-' {
            proof {
                lemma_skip_spaces(s, i);
            }
            match term_at::<T>(s, k + 1) {
                Ok((right, j)) => if k < j <= s.len() {
                    sum_tail(
                        s,
                        j,
                        if c == '+' {
                            ExprView::Add(Box::new(left), Box::new(right))
                        } else {
                            ExprView::Sub(Box::new(left), Box::new(right))
                        },
                    )
                } else {
                    Err(k)
                },
                Err(at) => Err(at),
            }
        } else {
            Ok((left, i))
        }
    }
}

/// A term: factors joined by `*` and `/`, taken from the left.
pub open spec fn term_at<T: Numeric>(s: Seq<char>, i: int) -> Result<(ExprView<T>, int), int>
    decreases s.len() - i, 5int,
{
    if !(0 <= i <= s.len()) {
        Err(i)
    } else {
        match unary_at::<T>(s, i) {
            Ok((left, j)) => if i < j <= s.len() {
                product_tail(s, j, left)
            } else {
                Err(i)
            },
            Err(at) => Err(at),
        }
    }
}

/// What follows the first factors of a term, whose value so far is `left`.
pub open spec fn product_tail<T: Numeric>(s: Seq<char>, i: int, left: ExprView<T>) -> Result<
    (ExprView<T>, int),
    int,
>
    decreases s.len() - i, 0int,
{
    if !(0 <= i <= s.len()) {
        Err(i)
    } else {
        let k = skip_spaces(s, i);
        let c = peek(s, k);
        if c == '*' || c == '/' {
            proof {
                lemma_skip_spaces(s, i);
            }
            match unary_at::<T>(s, k + 1) {
                Ok((right, j)) => if k < j <= s.len() {
                    product_tail(
                        s,
                        j,
                        if c == '*' {
                            ExprView::Mul(Box::new(left), Box::new(right))
                        } else {
                            ExprView::Div(Box::new(left), Box::new(right))
                        },
                    )
                } else {
                    Err(k)
                },
                Err(at) => Err(at),
            }
        } else {
            Ok((left, i))
        }
    }
}

/// A factor: a power, or a factor with a minus sign before it.
pub open spec fn unary_at<T: Numeric>(s: Seq<char>, i: int) -> Result<(ExprView<T>, int), int>
    decreases s.len() - i, 4int,
{
    if !(0 <= i <= s.len()) {
        Err(i)
    } else {
        let k = skip_spaces(s, i);
        proof {
            lemma_skip_spaces(s, i);
        }
        if peek(s, k) == '-' {
            match unary_at::<T>(s, k + 1) {
                Ok((operand, j)) => Ok((ExprView::Neg(Box::new(operand)), j)),
                Err(at) => Err(at),
            }
        } else {
            power_at::<T>(s, k)
        }
    }
}

/// A power: an atom, or an atom raised by `^` to a factor.
pub open spec fn power_at<T: Numeric>(s: Seq<char>, i: int) -> Result<(ExprView<T>, int), int>
    decreases s.len() - i, 3int,
{
    if !(0 <= i <= s.len()) {
        Err(i)
    } else {
        match atom_at::<T>(s, i) {
            Ok((base, j)) => if i < j <= s.len() {
                let k = skip_spaces(s, j);
                proof {
                    lemma_skip_spaces(s, j);
                }
                if peek(s, k) == '^' {
                    match unary_at::<T>(s, k + 1) {
                        Ok((exponent, m)) => Ok(
                            (ExprView::Pow(Box::new(base), Box::new(exponent)), m),
                        ),
                        Err(at) => Err(at),
                    }
                } else {
                    Ok((base, j))
                }
            } else {
                Err(i)
            },
            Err(at) => Err(at),
        }
    }
}

/// A sum between parentheses, the opening one at `open`.
pub open spec fn group_at<T: Numeric>(s: Seq<char>, open: int) -> Result<(ExprView<T>, int), int>
    decreases s.len() - open, 0int,
{
    if !(0 <= open < s.len()) || s[open] != '(' {
        Err(open)
    } else {
        match expr_at::<T>(s, open + 1) {
            Ok((inner, j)) => {
                let m = skip_spaces(s, j);
                if peek(s, m) == ')' {
                    Ok((inner, m + 1))
                } else {
                    Err(m)
                }
            },
            Err(at) => Err(at),
        }
    }
}

/// Two sums between parentheses with a comma between them, the opening
/// parenthesis at `open`.
pub open spec fn pair_at<T: Numeric>(s: Seq<char>, open: int) -> Result<
    ((ExprView<T>, ExprView<T>), int),
    int,
>
    decreases s.len() - open, 0int,
{
    if !(0 <= open < s.len()) || s[open] != '(' {
        Err(open)
    } else {
        match expr_at::<T>(s, open + 1) {
            Ok((first, j)) => {
                let m = skip_spaces(s, j);
                if open < j <= s.len() && peek(s, m) == ',' {
                    proof {
                        lemma_skip_spaces(s, j);
                    }
                    match expr_at::<T>(s, m + 1) {
                        Ok((second, n)) => {
                            let p = skip_spaces(s, n);
                            if peek(s, p) == ')' {
                                Ok(((first, second), p + 1))
                            } else {
                                Err(p)
                            }
                        },
                        Err(at) => Err(at),
                    }
                } else {
                    Err(m)
                }
            },
            Err(at) => Err(at),
        }
    }
}

/// A decimal literal at `k`, as the backend reads it.
pub open spec fn literal_at<T: Numeric>(s: Seq<char>, k: int) -> Result<(ExprView<T>, int), int> {
    let end = number_end(s, k);
    match T::literal(s.subrange(k, end)) {
        Some(value) => Ok((ExprView::Const(value), end)),
        None => Err(k),
    }
}

/// What begins with the word at `k`: a call of `sin`, `cos` or `log`, or a
/// variable of that name. No variable is called by a reserved word.
pub open spec fn named_at<T: Numeric>(s: Seq<char>, k: int) -> Result<(ExprView<T>, int), int>
    decreases s.len() - k, 1int,
{
    if !(0 <= k < s.len()) || !is_letter(s[k]) {
        Err(k)
    } else {
        let end = word_end(s, k);
        let word = s.subrange(k, end);
        let open = skip_spaces(s, end);
        proof {
            lemma_word_end(s, k);
            lemma_skip_spaces(s, end);
        }
        if word == "sin"@ {
            match group_at::<T>(s, open) {
                Ok((inner, j)) => Ok((ExprView::Sin(Box::new(inner)), j)),
                Err(at) => Err(at),
            }
        } else if word == "cos"@ {
            match group_at::<T>(s, open) {
                Ok((inner, j)) => Ok((ExprView::Cos(Box::new(inner)), j)),
                Err(at) => Err(at),
            }
        } else if word == "log"@ {
            match pair_at::<T>(s, open) {
                Ok(((value, base), j)) => Ok((ExprView::Log(Box::new(value), Box::new(base)), j)),
                Err(at) => Err(at),
            }
        } else if is_reserved(word) {
            Err(k)
        } else {
            Ok((ExprView::Var(word), end))
        }
    }
}

/// An atom: a decimal literal, a name, a call of `sin`, `cos` or `log`, or a
/// sum between parentheses.
pub open spec fn atom_at<T: Numeric>(s: Seq<char>, i: int) -> Result<(ExprView<T>, int), int>
    decreases s.len() - i, 2int,
{
    if !(0 <= i <= s.len()) {
        Err(i)
    } else {
        let k = skip_spaces(s, i);
        let c = peek(s, k);
        proof {
            lemma_skip_spaces(s, i);
        }
        if is_digit(c) {
            literal_at::<T>(s, k)
        } else if is_letter(c) {
            named_at::<T>(s, k)
        } else if c == '(' {
            group_at::<T>(s, k)
        } else {
            Err(k)
        }
    }
}

/// Whether what was read is what the notation says: the same tree and the
/// same end, or the same place of failure.
pub open spec fn agrees<T>(
    out: Result<(Expr<T>, usize), usize>,
    model: Result<(ExprView<T>, int), int>,
) -> bool {
    match (out, model) {
        (Ok((e, j)), Ok((v, k))) => e@ == v && j == k,
        (Err(a), Err(b)) => a == b,
        _ => false,
    }
}

/// Reads a sum from position `i`.
pub(crate) fn parse_expr<T: Numeric>(s: &str, len: usize, i: usize) -> (out: Result<
    (Expr<T>, usize),
    usize,
>)
    requires
        s.is_ascii(),
        len == s@.len(),
        i <= len,
    ensures
        agrees(out, expr_at::<T>(s@, i as int)),
        out matches Ok((_, j)) ==> i < j <= len,
        out matches Err(at) ==> at <= len,
    decreases len - i, 6int,
{
    let (first, start) = match parse_term(s, len, i) {
        Ok(read) => read,
        Err(at) => {
            return Err(at);
        },
    };
    let mut left: Expr<T> = first;
    let mut j: usize = start;
    loop
        invariant
            s.is_ascii(),
            len == s@.len(),
            i < j <= len,
            expr_at::<T>(s@, i as int) == sum_tail(s@, j as int, left@),
        decreases len - j,
    {
        let k = skip(s, len, j);
        let c = peek_at(s, len, k);
        if c == '+' || c == '-' {
            match parse_term(s, len, k + 1) {
                Ok((right, m)) => {
                    left = if c == '+' {
                        Expr::Add(Box::new(left), Box::new(right))
                    } else {
                        Expr::Sub(Box::new(left), Box::new(right))
                    };
                    j = m;
                },
                Err(at) => {
                    return Err(at);
                },
            }
        } else {
            return Ok((left, j));
        }
    }
}

/// Reads a term from position `i`.
pub(crate) fn parse_term<T: Numeric>(s: &str, len: usize, i: usize) -> (out: Result<
    (Expr<T>, usize),
    usize,
>)
    requires
        s.is_ascii(),
        len == s@.len(),
        i <= len,
    ensures
        agrees(out, term_at::<T>(s@, i as int)),
        out matches Ok((_, j)) ==> i < j <= len,
        out matches Err(at) ==> at <= len,
    decreases len - i, 5int,
{
    let (first, start) = match parse_unary(s, len, i) {
        Ok(read) => read,
        Err(at) => {
            return Err(at);
        },
    };
    let mut left: Expr<T> = first;
    let mut j: usize = start;
    loop
        invariant
            s.is_ascii(),
            len == s@.len(),
            i < j <= len,
            term_at::<T>(s@, i as int) == product_tail(s@, j as int, left@),
        decreases len - j,
    {
        let k = skip(s, len, j);
        let c = peek_at(s, len, k);
        if c == '*' || c == '/' {
            match parse_unary(s, len, k + 1) {
                Ok((right, m)) => {
                    left = if c == '*' {
                        Expr::Mul(Box::new(left), Box::new(right))
                    } else {
                        Expr::Div(Box::new(left), Box::new(right))
                    };
                    j = m;
                },
                Err(at) => {
                    return Err(at);
                },
            }
        } else {
            return Ok((left, j));
        }
    }
}

/// Reads a factor from position `i`.
pub(crate) fn parse_unary<T: Numeric>(s: &str, len: usize, i: usize) -> (out: Result<
    (Expr<T>, usize),
    usize,
>)
    requires
        s.is_ascii(),
        len == s@.len(),
        i <= len,
    ensures
        agrees(out, unary_at::<T>(s@, i as int)),
        out matches Ok((_, j)) ==> i < j <= len,
        out matches Err(at) ==> at <= len,
    decreases len - i, 4int,
{
    let k = skip(s, len, i);
    if peek_at(s, len, k) == '-' {
        match parse_unary(s, len, k + 1) {
            Ok((operand, j)) => Ok((Expr::Neg(Box::new(operand)), j)),
            Err(at) => Err(at),
        }
    } else {
        parse_power(s, len, k)
    }
}

/// Reads a power from position `i`.
pub(crate) fn parse_power<T: Numeric>(s: &str, len: usize, i: usize) -> (out: Result<
    (Expr<T>, usize),
    usize,
>)
    requires
        s.is_ascii(),
        len == s@.len(),
        i <= len,
    ensures
        agrees(out, power_at::<T>(s@, i as int)),
        out matches Ok((_, j)) ==> i < j <= len,
        out matches Err(at) ==> at <= len,
    decreases len - i, 3int,
{
    match parse_atom(s, len, i) {
        Ok((base, j)) => {
            let k = skip(s, len, j);
            if peek_at(s, len, k) == '^' {
                match parse_unary(s, len, k + 1) {
                    Ok((exponent, m)) => Ok((Expr::Pow(Box::new(base), Box::new(exponent)), m)),
                    Err(at) => Err(at),
                }
            } else {
                Ok((base, j))
            }
        },
        Err(at) => Err(at),
    }
}

/// Reads a sum between parentheses, the opening one at `open`.
pub(crate) fn parse_group<T: Numeric>(s: &str, len: usize, open: usize) -> (out: Result<
    (Expr<T>, usize),
    usize,
>)
    requires
        s.is_ascii(),
        len == s@.len(),
        open <= len,
    ensures
        agrees(out, group_at::<T>(s@, open as int)),
        out matches Ok((_, j)) ==> open < j <= len,
        out matches Err(at) ==> at <= len,
    decreases len - open, 0int,
{
    if peek_at(s, len, open) != '(' {
        return Err(open);
    }
    match parse_expr(s, len, open + 1) {
        Ok((inner, j)) => {
            let m = skip(s, len, j);
            if peek_at(s, len, m) == ')' {
                Ok((inner, m + 1))
            } else {
                Err(m)
            }
        },
        Err(at) => Err(at),
    }
}

/// Reads two sums between parentheses with a comma between them, the
/// opening parenthesis at `open`.
pub(crate) fn parse_pair<T: Numeric>(s: &str, len: usize, open: usize) -> (out: Result<
    ((Expr<T>, Expr<T>), usize),
    usize,
>)
    requires
        s.is_ascii(),
        len == s@.len(),
        open <= len,
    ensures
        match (out, pair_at::<T>(s@, open as int)) {
            (Ok(((a, b), j)), Ok(((u, v), k))) => a@ == u && b@ == v && j == k,
            (Err(a), Err(b)) => a == b,
            _ => false,
        },
        out matches Ok((_, j)) ==> open < j <= len,
        out matches Err(at) ==> at <= len,
    decreases len - open, 0int,
{
    if peek_at(s, len, open) != '(' {
        return Err(open);
    }
    let (first, j) = match parse_expr(s, len, open + 1) {
        Ok(read) => read,
        Err(at) => {
            return Err(at);
        },
    };
    let m = skip(s, len, j);
    if peek_at(s, len, m) != ',' {
        return Err(m);
    }
    let (second, n) = match parse_expr(s, len, m + 1) {
        Ok(read) => read,
        Err(at) => {
            return Err(at);
        },
    };
    let p = skip(s, len, n);
    if peek_at(s, len, p) == ')' {
        Ok(((first, second), p + 1))
    } else {
        Err(p)
    }
}

/// Reads the decimal literal at `k`.
pub(crate) fn parse_literal<T: Numeric>(s: &str, len: usize, k: usize) -> (out: Result<
    (Expr<T>, usize),
    usize,
>)
    requires
        s.is_ascii(),
        len == s@.len(),
        k < len,
        is_digit(s@[k as int]),
    ensures
        agrees(out, literal_at::<T>(s@, k as int)),
        out matches Ok((_, j)) ==> k < j <= len,
        out matches Err(at) ==> at <= len,
{
    let end = scan_number(s, len, k);
    proof {
        lemma_number_end(s@, k as int);
    }
    match T::from_literal(s.substring_ascii(k, end)) {
        Some(value) => Ok((Expr::Const(value), end)),
        None => Err(k),
    }
}

/// Reads what begins with the word at `k`.
pub(crate) fn parse_named<T: Numeric>(s: &str, len: usize, k: usize) -> (out: Result<
    (Expr<T>, usize),
    usize,
>)
    requires
        s.is_ascii(),
        len == s@.len(),
        k < len,
        is_letter(s@[k as int]),
    ensures
        agrees(out, named_at::<T>(s@, k as int)),
        out matches Ok((_, j)) ==> k < j <= len,
        out matches Err(at) ==> at <= len,
    decreases len - k, 1int,
{
    let end = scan_word(s, len, k);
    let open = skip(s, len, end);
    proof {
        lemma_word_end(s@, k as int);
        reveal_strlit("sin");
        reveal_strlit("cos");
        reveal_strlit("log");
    }
    if spells(s, len, k, end, "sin") {
        match parse_group(s, len, open) {
            Ok((inner, j)) => Ok((Expr::Sin(Box::new(inner)), j)),
            Err(at) => Err(at),
        }
    } else if spells(s, len, k, end, "cos") {
        match parse_group(s, len, open) {
            Ok((inner, j)) => Ok((Expr::Cos(Box::new(inner)), j)),
            Err(at) => Err(at),
        }
    } else if spells(s, len, k, end, "log") {
        match parse_pair(s, len, open) {
            Ok(((value, base), j)) => Ok((Expr::Log(Box::new(value), Box::new(base)), j)),
            Err(at) => Err(at),
        }
    } else if reserved(s, len, k, end) {
        Err(k)
    } else {
        Ok((Expr::Var(String::from_str(s.substring_ascii(k, end))), end))
    }
}

/// Reads an atom from position `i`.
pub(crate) fn parse_atom<T: Numeric>(s: &str, len: usize, i: usize) -> (out: Result<
    (Expr<T>, usize),
    usize,
>)
    requires
        s.is_ascii(),
        len == s@.len(),
        i <= len,
    ensures
        agrees(out, atom_at::<T>(s@, i as int)),
        out matches Ok((_, j)) ==> i < j <= len,
        out matches Err(at) ==> at <= len,
    decreases len - i, 2int,
{
    let k = skip(s, len, i);
    let c = peek_at(s, len, k);
    if digit(c) {
        parse_literal(s, len, k)
    } else if letter(c) {
        parse_named(s, len, k)
    } else if c == '(' {
        parse_group(s, len, k)
    } else {
        Err(k)
    }
}

} // verus!
