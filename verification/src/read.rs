use crate::ast::{
    case_views, CaseCondition, CaseView, Equation, EquationView, Expr, ExprView, Interval,
    Openness, Piecewise, PiecewiseView,
};
use crate::lexer::{
    digit, is_digit, is_letter, is_reserved, lemma_number_end, lemma_word_end, letter, number_end,
    peek, peek_at, reserved, scan_number, scan_word, skip, skip_spaces, spells, word_end,
};
use crate::numeric::Numeric;
use crate::parse::{expr_at, parse_expr, ParseError};
use vstd::prelude::*;
use vstd::string::{StrSliceExecFns, StringExecFns};

verus! {

/// A name at `i`, after any white space: a word that begins with a letter
/// and is not reserved.
pub open spec fn name_at(s: Seq<char>, i: int) -> Result<(Seq<char>, int), int> {
    let k = skip_spaces(s, i);
    let end = word_end(s, k);
    if is_letter(peek(s, k)) && !is_reserved(s.subrange(k, end)) {
        Ok((s.subrange(k, end), end))
    } else {
        Err(k)
    }
}

/// An end of an interval at `i`, after any white space: a decimal literal,
/// or the negation of one that has a minus sign before it.
pub open spec fn bound_at<T: Numeric>(s: Seq<char>, i: int) -> Result<(T, int), int> {
    let k = skip_spaces(s, i);
    let m = if peek(s, k) == '-' {
        skip_spaces(s, k + 1)
    } else {
        k
    };
    let end = number_end(s, m);
    if is_digit(peek(s, m)) {
        match T::literal(s.subrange(m, end)) {
            Some(value) => Ok(
                (
                    if peek(s, k) == '-' {
                        value.neg_spec()
                    } else {
                        value
                    },
                    end,
                ),
            ),
            None => Err(m),
        }
    } else {
        Err(m)
    }
}

/// An interval at `i`, after any white space: two ends with a comma between
/// them, within brackets that say which end is closed.
pub open spec fn interval_at<T: Numeric>(s: Seq<char>, i: int) -> Result<(Interval<T>, int), int> {
    let k = skip_spaces(s, i);
    if peek(s, k) != '[' && peek(s, k) != '(' {
        Err(k)
    } else {
        match bound_at::<T>(s, k + 1) {
            Ok((low, j)) => {
                let m = skip_spaces(s, j);
                if peek(s, m) != ',' {
                    Err(m)
                } else {
                    match bound_at::<T>(s, m + 1) {
                        Ok((high, n)) => {
                            let p = skip_spaces(s, n);
                            if peek(s, p) != ']' && peek(s, p) != ')' {
                                Err(p)
                            } else {
                                Ok(
                                    (
                                        Interval {
                                            low_val: low,
                                            high_val: high,
                                            low_openness: if peek(s, k) == '[' {
                                                Openness::Closed
                                            } else {
                                                Openness::Open
                                            },
                                            high_openness: if peek(s, p) == ']' {
                                                Openness::Closed
                                            } else {
                                                Openness::Open
                                            },
                                        },
                                        p + 1,
                                    ),
                                )
                            }
                        },
                        Err(at) => Err(at),
                    }
                }
            },
            Err(at) => Err(at),
        }
    }
}

/// A guard at `i`, after any white space: the word `otherwise`, or an
/// interval.
pub open spec fn condition_at<T: Numeric>(s: Seq<char>, i: int) -> Result<
    (CaseCondition<T>, int),
    int,
> {
    let k = skip_spaces(s, i);
    if is_letter(peek(s, k)) {
        if s.subrange(k, word_end(s, k)) == "otherwise"@ {
            Ok((CaseCondition::Otherwise, word_end(s, k)))
        } else {
            Err(k)
        }
    } else {
        match interval_at::<T>(s, k) {
            Ok((interval, j)) => Ok((CaseCondition::Interval(interval), j)),
            Err(at) => Err(at),
        }
    }
}

/// A case at `i`: a formula, the word `if` and a guard.
pub open spec fn case_at<T: Numeric>(s: Seq<char>, i: int) -> Result<(CaseView<T>, int), int> {
    match expr_at::<T>(s, i) {
        Ok((body, j)) => {
            let k = skip_spaces(s, j);
            if is_letter(peek(s, k)) && s.subrange(k, word_end(s, k)) == "if"@ {
                match condition_at::<T>(s, word_end(s, k)) {
                    Ok((condition, n)) => Ok((CaseView { condition, body }, n)),
                    Err(at) => Err(at),
                }
            } else {
                Err(k)
            }
        },
        Err(at) => Err(at),
    }
}

/// The cases that follow the cases `before`, up to the closing brace. Cases
/// stand one after the other, with or without a comma between them.
pub open spec fn cases_at<T: Numeric>(s: Seq<char>, i: int, before: Seq<CaseView<T>>) -> Result<
    (Seq<CaseView<T>>, int),
    int,
>
    decreases s.len() - i,
{
    if !(0 <= i <= s.len()) {
        Err(i)
    } else {
        let k = skip_spaces(s, i);
        if peek(s, k) == '}' {
            Ok((before, k + 1))
        } else {
            let start = if before.len() > 0 && peek(s, k) == ',' {
                k + 1
            } else {
                k
            };
            match case_at::<T>(s, start) {
                Ok((case, j)) => if i < j <= s.len() {
                    cases_at(s, j, before.push(case))
                } else {
                    Err(start)
                },
                Err(at) => Err(at),
            }
        }
    }
}

/// A piecewise function: a name, an equals sign that may be left out, and
/// the cases between braces.
pub open spec fn piecewise_at<T: Numeric>(s: Seq<char>) -> Result<(PiecewiseView<T>, int), int> {
    match name_at(s, 0) {
        Ok((lhs, j)) => {
            let k = skip_spaces(s, j);
            let open = if peek(s, k) == '=' {
                skip_spaces(s, k + 1)
            } else {
                k
            };
            if peek(s, open) == '{' {
                match cases_at::<T>(s, open + 1, Seq::empty()) {
                    Ok((cases, n)) => Ok((PiecewiseView { lhs, cases }, n)),
                    Err(at) => Err(at),
                }
            } else {
                Err(open)
            }
        },
        Err(at) => Err(at),
    }
}

/// An equation: a name, an equals sign and a formula.
pub open spec fn equation_at<T: Numeric>(s: Seq<char>) -> Result<(EquationView<T>, int), int> {
    match name_at(s, 0) {
        Ok((lhs, j)) => {
            let k = skip_spaces(s, j);
            if peek(s, k) == '=' {
                match expr_at::<T>(s, k + 1) {
                    Ok((rhs, n)) => Ok((EquationView { lhs, rhs }, n)),
                    Err(at) => Err(at),
                }
            } else {
                Err(k)
            }
        },
        Err(at) => Err(at),
    }
}

/// What reading a whole text gives: what was read, where only white space
/// follows it, and the place of the first character that cannot stand where
/// it does otherwise. A text with a character outside ASCII is not read at
/// all.
pub open spec fn whole<V>(s: Seq<char>, read: Result<(V, int), int>) -> Result<V, ParseError> {
    if !vstd::utf8::is_ascii_chars(s) {
        Err(ParseError::NotAscii)
    } else {
        match read {
            Ok((value, j)) => if skip_spaces(s, j) == s.len() {
                Ok(value)
            } else {
                Err(ParseError::Unexpected { position: skip_spaces(s, j) as usize })
            },
            Err(at) => Err(ParseError::Unexpected { position: at as usize }),
        }
    }
}

/// The formula that a text denotes.
pub open spec fn read_expr<T: Numeric>(s: Seq<char>) -> Result<ExprView<T>, ParseError> {
    whole(s, expr_at::<T>(s, 0))
}

/// The equation that a text denotes.
pub open spec fn read_equation<T: Numeric>(s: Seq<char>) -> Result<EquationView<T>, ParseError> {
    whole(s, equation_at::<T>(s))
}

/// The piecewise function that a text denotes.
pub open spec fn read_piecewise<T: Numeric>(s: Seq<char>) -> Result<PiecewiseView<T>, ParseError> {
    whole(s, piecewise_at::<T>(s))
}

/// The interval that a text denotes.
pub open spec fn read_interval<T: Numeric>(s: Seq<char>) -> Result<Interval<T>, ParseError> {
    whole(s, interval_at::<T>(s, 0))
}

/// The guard that a text denotes.
pub open spec fn read_condition<T: Numeric>(s: Seq<char>) -> Result<CaseCondition<T>, ParseError> {
    whole(s, condition_at::<T>(s, 0))
}

/// Whether what was read is what the notation says: the same value and the
/// same end, or the same place of failure.
pub open spec fn same_step<V>(out: Result<(V, usize), usize>, model: Result<(V, int), int>) -> bool {
    match (out, model) {
        (Ok((a, j)), Ok((v, k))) => a == v && j == k,
        (Err(a), Err(b)) => a == b,
        _ => false,
    }
}

/// Reads a name from position `i`.
pub(crate) fn parse_name(s: &str, len: usize, i: usize) -> (out: Result<(String, usize), usize>)
    requires
        s.is_ascii(),
        len == s@.len(),
        i <= len,
    ensures
        match (out, name_at(s@, i as int)) {
            (Ok((w, j)), Ok((v, k))) => w@ == v && j == k,
            (Err(a), Err(b)) => a == b,
            _ => false,
        },
        out matches Ok((_, j)) ==> i < j <= len,
        out matches Err(at) ==> at <= len,
{
    let k = skip(s, len, i);
    let end = scan_word(s, len, k);
    proof {
        lemma_word_end(s@, k as int);
    }
    if letter(peek_at(s, len, k)) && !reserved(s, len, k, end) {
        Ok((String::from_str(s.substring_ascii(k, end)), end))
    } else {
        Err(k)
    }
}

/// Reads an end of an interval from position `i`.
pub(crate) fn parse_bound<T: Numeric>(s: &str, len: usize, i: usize) -> (out: Result<(T, usize), usize>)
    requires
        s.is_ascii(),
        len == s@.len(),
        i <= len,
    ensures
        same_step(out, bound_at::<T>(s@, i as int)),
        out matches Ok((_, j)) ==> i < j <= len,
        out matches Err(at) ==> at <= len,
{
    let k = skip(s, len, i);
    let minus = peek_at(s, len, k) == '-';
    let m = if minus {
        skip(s, len, k + 1)
    } else {
        k
    };
    if digit(peek_at(s, len, m)) {
        let end = scan_number(s, len, m);
        proof {
            lemma_number_end(s@, m as int);
        }
        match T::from_literal(s.substring_ascii(m, end)) {
            Some(value) => Ok((if minus {
                value.neg()
            } else {
                value
            }, end)),
            None => Err(m),
        }
    } else {
        Err(m)
    }
}

/// Reads an interval from position `i`.
pub(crate) fn parse_interval<T: Numeric>(s: &str, len: usize, i: usize) -> (out: Result<
    (Interval<T>, usize),
    usize,
>)
    requires
        s.is_ascii(),
        len == s@.len(),
        i <= len,
    ensures
        same_step(out, interval_at::<T>(s@, i as int)),
        out matches Ok((_, j)) ==> i < j <= len,
        out matches Err(at) ==> at <= len,
{
    let k = skip(s, len, i);
    let first = peek_at(s, len, k);
    if first != '[' && first != '(' {
        return Err(k);
    }
    let (low, j) = match parse_bound::<T>(s, len, k + 1) {
        Ok(read) => read,
        Err(at) => {
            return Err(at);
        },
    };
    let m = skip(s, len, j);
    if peek_at(s, len, m) != ',' {
        return Err(m);
    }
    let (high, n) = match parse_bound::<T>(s, len, m + 1) {
        Ok(read) => read,
        Err(at) => {
            return Err(at);
        },
    };
    let p = skip(s, len, n);
    let last = peek_at(s, len, p);
    if last != ']' && last != ')' {
        return Err(p);
    }
    Ok(
        (
            Interval::new(
                low,
                high,
                if first == '[' {
                    Openness::Closed
                } else {
                    Openness::Open
                },
                if last == ']' {
                    Openness::Closed
                } else {
                    Openness::Open
                },
            ),
            p + 1,
        ),
    )
}

/// Reads a guard from position `i`.
pub(crate) fn parse_condition<T: Numeric>(s: &str, len: usize, i: usize) -> (out: Result<
    (CaseCondition<T>, usize),
    usize,
>)
    requires
        s.is_ascii(),
        len == s@.len(),
        i <= len,
    ensures
        same_step(out, condition_at::<T>(s@, i as int)),
        out matches Ok((_, j)) ==> i < j <= len,
        out matches Err(at) ==> at <= len,
{
    let k = skip(s, len, i);
    if letter(peek_at(s, len, k)) {
        let end = scan_word(s, len, k);
        proof {
            lemma_word_end(s@, k as int);
            reveal_strlit("otherwise");
        }
        if spells(s, len, k, end, "otherwise") {
            Ok((CaseCondition::Otherwise, end))
        } else {
            Err(k)
        }
    } else {
        match parse_interval::<T>(s, len, k) {
            Ok((interval, j)) => Ok((CaseCondition::Interval(interval), j)),
            Err(at) => Err(at),
        }
    }
}

/// Reads a case from position `i`.
pub(crate) fn parse_case<T: Numeric>(s: &str, len: usize, i: usize) -> (out: Result<
    ((CaseCondition<T>, Box<Expr<T>>), usize),
    usize,
>)
    requires
        s.is_ascii(),
        len == s@.len(),
        i <= len,
    ensures
        match (out, case_at::<T>(s@, i as int)) {
            (Ok((c, j)), Ok((v, k))) => c.0 == v.condition && c.1@ == v.body && j == k,
            (Err(a), Err(b)) => a == b,
            _ => false,
        },
        out matches Ok((_, j)) ==> i < j <= len,
        out matches Err(at) ==> at <= len,
{
    let (body, j) = match parse_expr::<T>(s, len, i) {
        Ok(read) => read,
        Err(at) => {
            return Err(at);
        },
    };
    let k = skip(s, len, j);
    let end = scan_word(s, len, k);
    proof {
        lemma_word_end(s@, k as int);
        reveal_strlit("if");
    }
    if letter(peek_at(s, len, k)) && spells(s, len, k, end, "if") {
        match parse_condition::<T>(s, len, end) {
            Ok((condition, n)) => Ok(((condition, Box::new(body)), n)),
            Err(at) => Err(at),
        }
    } else {
        Err(k)
    }
}

/// Reads the cases of a piecewise function from position `start`, which
/// follows the opening brace, up to the closing brace.
pub(crate) fn parse_cases<T: Numeric>(s: &str, len: usize, start: usize) -> (out: Result<
    (Vec<(CaseCondition<T>, Box<Expr<T>>)>, usize),
    usize,
>)
    requires
        s.is_ascii(),
        len == s@.len(),
        start <= len,
    ensures
        match (out, cases_at::<T>(s@, start as int, Seq::empty())) {
            (Ok((c, j)), Ok((v, k))) => case_views(c@) == v && j == k,
            (Err(a), Err(b)) => a == b,
            _ => false,
        },
        out matches Ok((_, j)) ==> j <= len,
        out matches Err(at) ==> at <= len,
{
    let mut cases: Vec<(CaseCondition<T>, Box<Expr<T>>)> = Vec::new();
    let mut j: usize = start;
    let ghost mut views: Seq<CaseView<T>> = Seq::empty();
    assert(case_views(cases@) =~= views);
    loop
        invariant
            s.is_ascii(),
            len == s@.len(),
            start <= j <= len,
            views == case_views(cases@),
            views.len() == cases@.len(),
            cases_at::<T>(s@, start as int, Seq::empty()) == cases_at::<T>(s@, j as int, views),
        decreases len - j,
    {
        let k = skip(s, len, j);
        if peek_at(s, len, k) == '}' {
            return Ok((cases, k + 1));
        }
        let first = if cases.len() > 0 && peek_at(s, len, k) == ',' {
            k + 1
        } else {
            k
        };
        match parse_case::<T>(s, len, first) {
            Ok((case, n)) => {
                proof {
                    let added = CaseView { condition: case.0, body: case.1@ };
                    assert(case_at::<T>(s@, first as int) == Ok::<(CaseView<T>, int), int>(
                        (added, n as int),
                    ));
                    assert(case_views(cases@.push(case)) =~= views.push(added));
                    views = views.push(added);
                }
                cases.push(case);
                j = n;
            },
            Err(at) => {
                return Err(at);
            },
        }
    }
}

/// Reads a piecewise function from the start of the text.
pub(crate) fn parse_piecewise<T: Numeric>(s: &str, len: usize) -> (out: Result<
    (Piecewise<T>, usize),
    usize,
>)
    requires
        s.is_ascii(),
        len == s@.len(),
    ensures
        match (out, piecewise_at::<T>(s@)) {
            (Ok((p, j)), Ok((v, k))) => p@ == v && j == k,
            (Err(a), Err(b)) => a == b,
            _ => false,
        },
        out matches Ok((_, j)) ==> j <= len,
        out matches Err(at) ==> at <= len,
{
    let (lhs, after) = match parse_name(s, len, 0) {
        Ok(read) => read,
        Err(at) => {
            return Err(at);
        },
    };
    let k = skip(s, len, after);
    let open = if peek_at(s, len, k) == '=' {
        skip(s, len, k + 1)
    } else {
        k
    };
    if peek_at(s, len, open) != '{' {
        return Err(open);
    }
    match parse_cases::<T>(s, len, open + 1) {
        Ok((cases, n)) => Ok((Piecewise::new(lhs, cases), n)),
        Err(at) => Err(at),
    }
}

/// Reads an equation from the start of the text.
pub(crate) fn parse_equation<T: Numeric>(s: &str, len: usize) -> (out: Result<
    (Equation<T>, usize),
    usize,
>)
    requires
        s.is_ascii(),
        len == s@.len(),
    ensures
        match (out, equation_at::<T>(s@)) {
            (Ok((e, j)), Ok((v, k))) => e@ == v && j == k,
            (Err(a), Err(b)) => a == b,
            _ => false,
        },
        out matches Ok((_, j)) ==> j <= len,
        out matches Err(at) ==> at <= len,
{
    let (lhs, after) = match parse_name(s, len, 0) {
        Ok(read) => read,
        Err(at) => {
            return Err(at);
        },
    };
    let k = skip(s, len, after);
    if peek_at(s, len, k) != '=' {
        return Err(k);
    }
    match parse_expr::<T>(s, len, k + 1) {
        Ok((rhs, n)) => Ok((Equation::new(lhs, Box::new(rhs)), n)),
        Err(at) => Err(at),
    }
}

/// Whether only white space follows position `j`; if not, the error for the
/// first character that is none.
pub(crate) fn finish(s: &str, len: usize, j: usize) -> (out: Result<(), ParseError>)
    requires
        s.is_ascii(),
        len == s@.len(),
        j <= len,
    ensures
        out == if skip_spaces(s@, j as int) == s@.len() {
            Ok::<(), ParseError>(())
        } else {
            Err(ParseError::Unexpected { position: skip_spaces(s@, j as int) as usize })
        },
{
    let k = skip(s, len, j);
    if k == len {
        Ok(())
    } else {
        Err(ParseError::Unexpected { position: k })
    }
}

impl<T: Numeric> Expr<T> {
    /// Reads a formula from the whole of a text.
    pub fn from_str(s: &str) -> (out: Result<Expr<T>, ParseError>)
        ensures
            match (out, read_expr::<T>(s@)) {
                (Ok(e), Ok(v)) => e@ == v,
                (Err(a), Err(b)) => a == b,
                _ => false,
            },
    {
        if !s.is_ascii() {
            return Err(ParseError::NotAscii);
        }
        let len = s.unicode_len();
        match parse_expr::<T>(s, len, 0) {
            Ok((e, j)) => match finish(s, len, j) {
                Ok(()) => Ok(e),
                Err(error) => Err(error),
            },
            Err(at) => Err(ParseError::Unexpected { position: at }),
        }
    }
}

impl<T: Numeric> Equation<T> {
    /// Reads an equation from the whole of a text.
    pub fn from_str(s: &str) -> (out: Result<Equation<T>, ParseError>)
        ensures
            match (out, read_equation::<T>(s@)) {
                (Ok(e), Ok(v)) => e@ == v,
                (Err(a), Err(b)) => a == b,
                _ => false,
            },
    {
        if !s.is_ascii() {
            return Err(ParseError::NotAscii);
        }
        let len = s.unicode_len();
        match parse_equation::<T>(s, len) {
            Ok((e, j)) => match finish(s, len, j) {
                Ok(()) => Ok(e),
                Err(error) => Err(error),
            },
            Err(at) => Err(ParseError::Unexpected { position: at }),
        }
    }
}

impl<T: Numeric> Piecewise<T> {
    /// Reads a piecewise function from the whole of a text. The cases are
    /// taken as they stand: whether they are in order is for `well_formed` to
    /// say.
    pub fn from_str(s: &str) -> (out: Result<Piecewise<T>, ParseError>)
        ensures
            match (out, read_piecewise::<T>(s@)) {
                (Ok(p), Ok(v)) => p@ == v,
                (Err(a), Err(b)) => a == b,
                _ => false,
            },
    {
        if !s.is_ascii() {
            return Err(ParseError::NotAscii);
        }
        let len = s.unicode_len();
        match parse_piecewise::<T>(s, len) {
            Ok((p, j)) => match finish(s, len, j) {
                Ok(()) => Ok(p),
                Err(error) => Err(error),
            },
            Err(at) => Err(ParseError::Unexpected { position: at }),
        }
    }
}

impl<T: Numeric> Interval<T> {
    /// Reads an interval from the whole of a text.
    pub fn from_str(s: &str) -> (out: Result<Interval<T>, ParseError>)
        ensures
            out == read_interval::<T>(s@),
    {
        if !s.is_ascii() {
            return Err(ParseError::NotAscii);
        }
        let len = s.unicode_len();
        match parse_interval::<T>(s, len, 0) {
            Ok((interval, j)) => match finish(s, len, j) {
                Ok(()) => Ok(interval),
                Err(error) => Err(error),
            },
            Err(at) => Err(ParseError::Unexpected { position: at }),
        }
    }
}

impl<T: Numeric> CaseCondition<T> {
    /// Reads a guard from the whole of a text.
    pub fn from_str(s: &str) -> (out: Result<CaseCondition<T>, ParseError>)
        ensures
            out == read_condition::<T>(s@),
    {
        if !s.is_ascii() {
            return Err(ParseError::NotAscii);
        }
        let len = s.unicode_len();
        match parse_condition::<T>(s, len, 0) {
            Ok((condition, j)) => match finish(s, len, j) {
                Ok(()) => Ok(condition),
                Err(error) => Err(error),
            },
            Err(at) => Err(ParseError::Unexpected { position: at }),
        }
    }
}

} // verus!
