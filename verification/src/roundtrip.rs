use crate::ast::{EquationView, ExprView};
use crate::lexer::{
    digits_end, is_digit, is_letter, is_reserved, is_space, is_word_char, lemma_digits_end,
    number_end, peek, skip_spaces, word_end,
};
use crate::numeric::Numeric;
use crate::parse::{
    atom_at, expr_at, group_at, literal_at, named_at, pair_at, power_at, product_tail, sum_tail,
    term_at, unary_at,
};
use crate::read::{equation_at, name_at, read_equation, read_expr};
use vstd::prelude::*;
use vstd::utf8::is_ascii_chars;

verus! {

/// Whether the text `t` stands in `s` from position `i` on.
pub open spec fn stands_at(s: Seq<char>, i: int, t: Seq<char>) -> bool {
    0 <= i && i + t.len() <= s.len() && s.subrange(i, i + t.len()) == t
}

/// Whether `w` can be the name of a variable or the label of a definition: a
/// letter followed by letters and digits, and no reserved word.
pub open spec fn is_name(w: Seq<char>) -> bool {
    &&& w.len() > 0
    &&& is_letter(w[0])
    &&& forall|k: int| 0 <= k < w.len() ==> is_word_char(#[trigger] w[k])
    &&& !is_reserved(w)
}

/// Whether `t` is a decimal literal without a sign: digits, and after them
/// at most one point with digits behind it.
pub open spec fn is_plain_number(t: Seq<char>) -> bool {
    t.len() > 0 && is_digit(t[0]) && number_end(t, 0) == t.len()
}

/// Whether the text of `c` is an unsigned literal that reads as `c`.
pub open spec fn reads_plain<T: Numeric>(c: T) -> bool {
    is_plain_number(c.text()) && T::literal(c.text()) == Some(c)
}

/// Whether the text of `c` is a minus sign before an unsigned literal, and
/// `c` is the negation of what that literal reads as.
pub open spec fn reads_negated<T: Numeric>(c: T) -> bool {
    let t = c.text();
    &&& t.len() > 1
    &&& t[0] == '-'
    &&& is_plain_number(t.subrange(1, t.len() as int))
    &&& T::literal(t.subrange(1, t.len() as int)) matches Some(m) && m.neg_spec() == c
}

/// Whether the text of `c` reads back as `c`.
pub open spec fn reads_back<T: Numeric>(c: T) -> bool {
    reads_plain(c) || reads_negated(c)
}

/// Whether the character at `j` ends a literal or a name that stands before
/// it.
pub open spec fn clean_end(s: Seq<char>, j: int) -> bool {
    !is_word_char(peek(s, j)) && peek(s, j) != '.'
}

/// The first character after position `j` that is no white space.
pub open spec fn next_char(s: Seq<char>, j: int) -> char {
    peek(s, skip_spaces(s, j))
}

pub proof fn lemma_stands_split(s: Seq<char>, i: int, a: Seq<char>, b: Seq<char>)
    requires
        stands_at(s, i, a + b),
    ensures
        stands_at(s, i, a),
        stands_at(s, i + a.len(), b),
{
    let t = a + b;
    assert(s.subrange(i, i + a.len()) =~= t.subrange(0, a.len() as int));
    assert(t.subrange(0, a.len() as int) =~= a);
    assert(s.subrange(i + a.len(), i + a.len() + b.len()) =~= t.subrange(
        a.len() as int,
        t.len() as int,
    ));
    assert(t.subrange(a.len() as int, t.len() as int) =~= b);
}

pub proof fn lemma_stands_char(s: Seq<char>, i: int, t: Seq<char>, k: int)
    requires
        stands_at(s, i, t),
        0 <= k < t.len(),
    ensures
        s[i + k] == t[k],
        peek(s, i + k) == t[k],
{
    assert(s.subrange(i, i + t.len())[k] == s[i + k]);
}

/// White space is skipped up to the first character that is none.
pub proof fn lemma_skip_to(s: Seq<char>, from: int, to: int)
    requires
        0 <= from <= to <= s.len(),
        forall|k: int| from <= k < to ==> is_space(#[trigger] s[k]),
        !is_space(peek(s, to)),
    ensures
        skip_spaces(s, from) == to,
    decreases to - from,
{
    if from < to {
        lemma_skip_to(s, from + 1, to);
    }
}

/// Digits standing in `s` end where they end in the text `t` itself, or,
/// where they fill `t` to its end, at the first character after `t` if that
/// is no digit.
pub proof fn lemma_digits_end_within(s: Seq<char>, i: int, t: Seq<char>, a: int)
    requires
        stands_at(s, i, t),
        0 <= a <= t.len(),
        digits_end(t, a) < t.len() || !is_digit(peek(s, i + t.len())),
    ensures
        digits_end(s, i + a) == i + digits_end(t, a),
    decreases t.len() - a,
{
    if a < t.len() {
        lemma_stands_char(s, i, t, a);
        if is_digit(t[a]) {
            lemma_digits_end_within(s, i, t, a + 1);
        }
    }
}

/// An unsigned literal that stands in `s` before a clean end is the whole of
/// the literal that begins there.
pub proof fn lemma_number_stands(s: Seq<char>, i: int, t: Seq<char>)
    requires
        stands_at(s, i, t),
        is_plain_number(t),
        clean_end(s, i + t.len()),
    ensures
        number_end(s, i) == i + t.len(),
        is_digit(peek(s, i)),
        skip_spaces(s, i) == i,
{
    lemma_stands_char(s, i, t, 0);
    lemma_digits_end(t, 0);
    let d = digits_end(t, 0);
    lemma_digits_end_within(s, i, t, 0);
    if d < t.len() {
        lemma_stands_char(s, i, t, d);
        if t[d] == '.' && is_digit(peek(t, d + 1)) {
            lemma_stands_char(s, i, t, d + 1);
            lemma_digits_end(t, d + 1);
            lemma_digits_end_within(s, i, t, d + 1);
        }
    }
}

/// Every character of an unsigned literal is a digit or a point.
pub proof fn lemma_number_chars(t: Seq<char>)
    requires
        is_plain_number(t),
    ensures
        forall|k: int| 0 <= k < t.len() ==> is_digit(#[trigger] t[k]) || t[k] == '.',
{
    lemma_digits_end(t, 0);
    let d = digits_end(t, 0);
    if d < t.len() {
        if t[d] == '.' && is_digit(peek(t, d + 1)) {
            lemma_digits_end(t, d + 1);
        }
    }
}

/// Characters of a name that stand in `s` from `a` on run up to the first
/// character after them that cannot be part of a name.
pub proof fn lemma_word_end_within(s: Seq<char>, i: int, w: Seq<char>, a: int)
    requires
        stands_at(s, i, w),
        0 <= a <= w.len(),
        forall|k: int| 0 <= k < w.len() ==> is_word_char(#[trigger] w[k]),
        !is_word_char(peek(s, i + w.len())),
    ensures
        word_end(s, i + a) == i + w.len(),
    decreases w.len() - a,
{
    if a < w.len() {
        lemma_stands_char(s, i, w, a);
        lemma_word_end_within(s, i, w, a + 1);
    }
}

/// A sum goes no further where the next character is neither `+` nor `-`.
pub proof fn lemma_sum_stops<T: Numeric>(s: Seq<char>, j: int, left: ExprView<T>)
    requires
        0 <= j <= s.len(),
        next_char(s, j) != '+',
        next_char(s, j) != '-',
    ensures
        sum_tail(s, j, left) == Ok::<(ExprView<T>, int), int>((left, j)),
{
}

/// A term goes no further where the next character is neither `*` nor `/`.
pub proof fn lemma_product_stops<T: Numeric>(s: Seq<char>, j: int, left: ExprView<T>)
    requires
        0 <= j <= s.len(),
        next_char(s, j) != '*',
        next_char(s, j) != '/',
    ensures
        product_tail(s, j, left) == Ok::<(ExprView<T>, int), int>((left, j)),
{
}

impl<T: Numeric> ExprView<T> {
    /// Whether the text of the formula begins with an atom, not with a minus
    /// sign: the formula is no negation and no constant that is written with
    /// a sign.
    pub open spec fn is_atomic(self) -> bool {
        match self {
            ExprView::Const(c) => reads_plain(c),
            ExprView::Neg(_) => false,
            _ => true,
        }
    }

    /// Whether the text of the formula can be read back: every constant reads
    /// back as itself, every variable has a proper name, and no power has a
    /// base that is written with a minus sign before it, which in the text
    /// would apply to the whole power.
    pub open spec fn printable(self) -> bool
        decreases self,
    {
        match self {
            ExprView::Const(c) => reads_back(c),
            ExprView::Var(w) => is_name(w),
            ExprView::Add(l, r) => l.printable() && r.printable(),
            ExprView::Sub(l, r) => l.printable() && r.printable(),
            ExprView::Mul(l, r) => l.printable() && r.printable(),
            ExprView::Div(l, r) => l.printable() && r.printable(),
            ExprView::Pow(l, r) => l.printable() && r.printable() && l.is_atomic(),
            ExprView::Log(l, r) => l.printable() && r.printable(),
            ExprView::Neg(a) => a.printable(),
            ExprView::Sin(a) => a.printable(),
            ExprView::Cos(a) => a.printable(),
        }
    }

    /// The tree that the text of the formula is read as: the formula itself,
    /// but for its constants written with a sign, which come back as the
    /// negation of an unsigned constant.
    pub open spec fn read_form(self) -> ExprView<T>
        decreases self,
    {
        match self {
            ExprView::Const(c) => if reads_plain(c) {
                self
            } else {
                ExprView::Neg(
                    Box::new(
                        ExprView::Const(
                            T::literal(c.text().subrange(1, c.text().len() as int))->Some_0,
                        ),
                    ),
                )
            },
            ExprView::Var(_) => self,
            ExprView::Add(l, r) => ExprView::Add(Box::new(l.read_form()), Box::new(r.read_form())),
            ExprView::Sub(l, r) => ExprView::Sub(Box::new(l.read_form()), Box::new(r.read_form())),
            ExprView::Mul(l, r) => ExprView::Mul(Box::new(l.read_form()), Box::new(r.read_form())),
            ExprView::Div(l, r) => ExprView::Div(Box::new(l.read_form()), Box::new(r.read_form())),
            ExprView::Pow(l, r) => ExprView::Pow(Box::new(l.read_form()), Box::new(r.read_form())),
            ExprView::Log(l, r) => ExprView::Log(Box::new(l.read_form()), Box::new(r.read_form())),
            ExprView::Neg(a) => ExprView::Neg(Box::new(a.read_form())),
            ExprView::Sin(a) => ExprView::Sin(Box::new(a.read_form())),
            ExprView::Cos(a) => ExprView::Cos(Box::new(a.read_form())),
        }
    }

    /// What the text is read as has the value of the formula itself.
    pub proof fn lemma_read_form_value(self, x: T)
        requires
            self.printable(),
        ensures
            self.read_form().eval(x) == self.eval(x),
        decreases self,
    {
        match self {
            ExprView::Const(c) => {
                if !reads_plain(c) {
                    let m = T::literal(c.text().subrange(1, c.text().len() as int))->Some_0;
                    assert(ExprView::Const(m).eval(x) == m);
                    assert(m.neg_spec() == c);
                }
            },
            ExprView::Var(_) => {},
            ExprView::Add(l, r) => {
                l.lemma_read_form_value(x);
                r.lemma_read_form_value(x);
            },
            ExprView::Sub(l, r) => {
                l.lemma_read_form_value(x);
                r.lemma_read_form_value(x);
            },
            ExprView::Mul(l, r) => {
                l.lemma_read_form_value(x);
                r.lemma_read_form_value(x);
            },
            ExprView::Div(l, r) => {
                l.lemma_read_form_value(x);
                r.lemma_read_form_value(x);
            },
            ExprView::Pow(l, r) => {
                l.lemma_read_form_value(x);
                r.lemma_read_form_value(x);
            },
            ExprView::Log(l, r) => {
                l.lemma_read_form_value(x);
                r.lemma_read_form_value(x);
            },
            ExprView::Neg(a) => {
                a.lemma_read_form_value(x);
            },
            ExprView::Sin(a) => {
                a.lemma_read_form_value(x);
            },
            ExprView::Cos(a) => {
                a.lemma_read_form_value(x);
            },
        }
    }

    /// The text of a printable formula is not empty and begins with no white
    /// space; that of an atomic formula begins with a digit, a letter or an
    /// opening parenthesis, that of any other with a minus sign.
    pub proof fn lemma_text_begins(self)
        requires
            self.printable(),
        ensures
            self.text().len() > 0,
            !is_space(self.text()[0]),
            self.is_atomic() ==> is_digit(self.text()[0]) || is_letter(self.text()[0])
                || self.text()[0] == '(',
            !self.is_atomic() ==> self.text()[0] == '-',
    {
        reveal_strlit("(");
        reveal_strlit("log(");
        reveal_strlit("sin(");
        reveal_strlit("cos(");
        reveal_strlit("-");
        match self {
            ExprView::Const(c) => {},
            ExprView::Var(w) => {},
            ExprView::Add(l, r) => {
                assert(self.text()[0] == "("@[0]);
            },
            ExprView::Sub(l, r) => {
                assert(self.text()[0] == "("@[0]);
            },
            ExprView::Mul(l, r) => {
                assert(self.text()[0] == "("@[0]);
            },
            ExprView::Div(l, r) => {
                assert(self.text()[0] == "("@[0]);
            },
            ExprView::Pow(l, r) => {
                assert(self.text()[0] == "("@[0]);
            },
            ExprView::Log(l, r) => {
                assert(self.text()[0] == "log("@[0]);
            },
            ExprView::Neg(a) => {
                assert(self.text()[0] == "-"@[0]);
            },
            ExprView::Sin(a) => {
                assert(self.text()[0] == "sin("@[0]);
            },
            ExprView::Cos(a) => {
                assert(self.text()[0] == "cos("@[0]);
            },
        }
    }
}

/// Whether the text of the printable formula `e` stands in `s` at `i`, with
/// nothing but white space between `from` and `i` and a clean end after it.
pub open spec fn placed<T: Numeric>(e: ExprView<T>, s: Seq<char>, from: int, i: int) -> bool {
    &&& e.printable()
    &&& 0 <= from <= i
    &&& skip_spaces(s, from) == i
    &&& stands_at(s, i, e.text())
    &&& clean_end(s, i + e.text().len())
}

/// The parts of a text of five parts stand where their lengths put them.
pub proof fn lemma_stands_five(
    s: Seq<char>,
    i: int,
    a: Seq<char>,
    b: Seq<char>,
    c: Seq<char>,
    d: Seq<char>,
    e: Seq<char>,
)
    requires
        stands_at(s, i, a + b + c + d + e),
    ensures
        stands_at(s, i, a),
        stands_at(s, i + a.len(), b),
        stands_at(s, i + a.len() + b.len(), c),
        stands_at(s, i + a.len() + b.len() + c.len(), d),
        stands_at(s, i + a.len() + b.len() + c.len() + d.len(), e),
        (a + b + c + d + e).len() == a.len() + b.len() + c.len() + d.len() + e.len(),
{
    lemma_stands_split(s, i, a + b + c + d, e);
    lemma_stands_split(s, i, a + b + c, d);
    lemma_stands_split(s, i, a + b, c);
    lemma_stands_split(s, i, a, b);
}

/// The text of a sum or a difference, which stands between parentheses, is
/// read as the sum or the difference of what its two sides are read as.
#[verifier::rlimit(50)]
pub proof fn lemma_reads_sum<T: Numeric>(
    e: ExprView<T>,
    l: ExprView<T>,
    r: ExprView<T>,
    s: Seq<char>,
    i: int,
)
    requires
        e == ExprView::Add(Box::new(l), Box::new(r)) || e == ExprView::Sub(
            Box::new(l),
            Box::new(r),
        ),
        e.printable(),
        stands_at(s, i, e.text()),
    ensures
        group_at::<T>(s, i) == Ok::<(ExprView<T>, int), int>(
            (e.read_form(), i + e.text().len()),
        ),
    decreases e, 0int,
{
    reveal_strlit("(");
    reveal_strlit(" + ");
    reveal_strlit(" - ");
    reveal_strlit(")");
    let plus = e is Add;
    let op = if plus {
        " + "@
    } else {
        " - "@
    };
    let sign = if plus {
        '+'
    } else {
        '-'
    };
    assert(e.text() == "("@ + l.text() + op + r.text() + ")"@);
    lemma_stands_five(s, i, "("@, l.text(), op, r.text(), ")"@);
    l.lemma_text_begins();
    r.lemma_text_begins();
    let jl = i + 1 + l.text().len();
    let jr = jl + 3 + r.text().len();
    lemma_stands_char(s, i, "("@, 0);
    lemma_stands_char(s, i + 1, l.text(), 0);
    lemma_stands_char(s, jl, op, 0);
    lemma_stands_char(s, jl, op, 1);
    lemma_stands_char(s, jl, op, 2);
    lemma_stands_char(s, jl + 3, r.text(), 0);
    lemma_stands_char(s, jr, ")"@, 0);
    assert(s[jl + 1] == sign);
    lemma_skip_to(s, i + 1, i + 1);
    lemma_skip_to(s, jl, jl + 1);
    lemma_skip_to(s, jl + 2, jl + 3);
    lemma_skip_to(s, jr, jr);
    lemma_reads_term::<T>(l, s, i + 1, i + 1);
    lemma_reads_term::<T>(r, s, jl + 2, jl + 3);
    let both = if plus {
        ExprView::Add(Box::new(l.read_form()), Box::new(r.read_form()))
    } else {
        ExprView::Sub(Box::new(l.read_form()), Box::new(r.read_form()))
    };
    assert(both == e.read_form());
    lemma_sum_stops::<T>(s, jr, both);
    assert(sum_tail::<T>(s, jl, l.read_form()) == Ok::<(ExprView<T>, int), int>((both, jr)));
    assert(expr_at::<T>(s, i + 1) == Ok::<(ExprView<T>, int), int>((both, jr)));
}

/// The text of a product or a quotient, which stands between parentheses, is
/// read as the product or the quotient of what its two sides are read as.
#[verifier::rlimit(50)]
pub proof fn lemma_reads_product<T: Numeric>(
    e: ExprView<T>,
    l: ExprView<T>,
    r: ExprView<T>,
    s: Seq<char>,
    i: int,
)
    requires
        e == ExprView::Mul(Box::new(l), Box::new(r)) || e == ExprView::Div(
            Box::new(l),
            Box::new(r),
        ),
        e.printable(),
        stands_at(s, i, e.text()),
    ensures
        group_at::<T>(s, i) == Ok::<(ExprView<T>, int), int>(
            (e.read_form(), i + e.text().len()),
        ),
    decreases e, 0int,
{
    reveal_strlit("(");
    reveal_strlit(" * ");
    reveal_strlit(" / ");
    reveal_strlit(")");
    let times = e is Mul;
    let op = if times {
        " * "@
    } else {
        " / "@
    };
    let sign = if times {
        '*'
    } else {
        '/'
    };
    assert(e.text() == "("@ + l.text() + op + r.text() + ")"@);
    lemma_stands_five(s, i, "("@, l.text(), op, r.text(), ")"@);
    l.lemma_text_begins();
    r.lemma_text_begins();
    let jl = i + 1 + l.text().len();
    let jr = jl + 3 + r.text().len();
    lemma_stands_char(s, i, "("@, 0);
    lemma_stands_char(s, i + 1, l.text(), 0);
    lemma_stands_char(s, jl, op, 0);
    lemma_stands_char(s, jl, op, 1);
    lemma_stands_char(s, jl, op, 2);
    lemma_stands_char(s, jl + 3, r.text(), 0);
    lemma_stands_char(s, jr, ")"@, 0);
    assert(s[jl + 1] == sign);
    lemma_skip_to(s, i + 1, i + 1);
    lemma_skip_to(s, jl, jl + 1);
    lemma_skip_to(s, jl + 2, jl + 3);
    lemma_skip_to(s, jr, jr);
    lemma_reads_unary::<T>(l, s, i + 1, i + 1);
    lemma_reads_unary::<T>(r, s, jl + 2, jl + 3);
    let both = if times {
        ExprView::Mul(Box::new(l.read_form()), Box::new(r.read_form()))
    } else {
        ExprView::Div(Box::new(l.read_form()), Box::new(r.read_form()))
    };
    assert(both == e.read_form());
    lemma_product_stops::<T>(s, jr, both);
    lemma_sum_stops::<T>(s, jr, both);
    assert(product_tail::<T>(s, jl, l.read_form()) == Ok::<(ExprView<T>, int), int>((both, jr)));
    assert(term_at::<T>(s, i + 1) == Ok::<(ExprView<T>, int), int>((both, jr)));
    assert(expr_at::<T>(s, i + 1) == Ok::<(ExprView<T>, int), int>((both, jr)));
}

/// The text of a power, which stands between parentheses, is read as the
/// power of what its base and its exponent are read as.
#[verifier::rlimit(50)]
pub proof fn lemma_reads_power<T: Numeric>(
    e: ExprView<T>,
    l: ExprView<T>,
    r: ExprView<T>,
    s: Seq<char>,
    i: int,
)
    requires
        e == ExprView::Pow(Box::new(l), Box::new(r)),
        e.printable(),
        stands_at(s, i, e.text()),
    ensures
        group_at::<T>(s, i) == Ok::<(ExprView<T>, int), int>(
            (e.read_form(), i + e.text().len()),
        ),
    decreases e, 0int,
{
    reveal_strlit("(");
    reveal_strlit("^");
    reveal_strlit(")");
    assert(e.text() == "("@ + l.text() + "^"@ + r.text() + ")"@);
    lemma_stands_five(s, i, "("@, l.text(), "^"@, r.text(), ")"@);
    l.lemma_text_begins();
    r.lemma_text_begins();
    let jl = i + 1 + l.text().len();
    let jr = jl + 1 + r.text().len();
    lemma_stands_char(s, i, "("@, 0);
    lemma_stands_char(s, i + 1, l.text(), 0);
    lemma_stands_char(s, jl, "^"@, 0);
    lemma_stands_char(s, jl + 1, r.text(), 0);
    lemma_stands_char(s, jr, ")"@, 0);
    lemma_skip_to(s, i + 1, i + 1);
    lemma_skip_to(s, jl, jl);
    lemma_skip_to(s, jl + 1, jl + 1);
    lemma_skip_to(s, jr, jr);
    lemma_reads_atom::<T>(l, s, i + 1, i + 1);
    lemma_reads_unary::<T>(r, s, jl + 1, jl + 1);
    let both = ExprView::Pow(Box::new(l.read_form()), Box::new(r.read_form()));
    assert(both == e.read_form());
    lemma_product_stops::<T>(s, jr, both);
    lemma_sum_stops::<T>(s, jr, both);
    assert(power_at::<T>(s, i + 1) == Ok::<(ExprView<T>, int), int>((both, jr)));
    assert(unary_at::<T>(s, i + 1) == Ok::<(ExprView<T>, int), int>((both, jr)));
    assert(term_at::<T>(s, i + 1) == Ok::<(ExprView<T>, int), int>((both, jr)));
    assert(expr_at::<T>(s, i + 1) == Ok::<(ExprView<T>, int), int>((both, jr)));
}

/// The text of a logarithm is read as the logarithm of what its two
/// arguments are read as.
#[verifier::rlimit(50)]
pub proof fn lemma_reads_log<T: Numeric>(
    e: ExprView<T>,
    l: ExprView<T>,
    r: ExprView<T>,
    s: Seq<char>,
    i: int,
)
    requires
        e == ExprView::Log(Box::new(l), Box::new(r)),
        e.printable(),
        stands_at(s, i, e.text()),
    ensures
        named_at::<T>(s, i) == Ok::<(ExprView<T>, int), int>(
            (e.read_form(), i + e.text().len()),
        ),
    decreases e, 0int,
{
    reveal_strlit("log(");
    reveal_strlit("log");
    reveal_strlit("sin");
    reveal_strlit("cos");
    reveal_strlit(", ");
    reveal_strlit(")");
    assert(e.text() == "log("@ + l.text() + ", "@ + r.text() + ")"@);
    lemma_stands_five(s, i, "log("@, l.text(), ", "@, r.text(), ")"@);
    l.lemma_text_begins();
    r.lemma_text_begins();
    let jl = i + 4 + l.text().len();
    let jr = jl + 2 + r.text().len();
    lemma_stands_char(s, i, "log("@, 0);
    lemma_stands_char(s, i, "log("@, 1);
    lemma_stands_char(s, i, "log("@, 2);
    lemma_stands_char(s, i, "log("@, 3);
    lemma_stands_char(s, i + 4, l.text(), 0);
    lemma_stands_char(s, jl, ", "@, 0);
    lemma_stands_char(s, jl, ", "@, 1);
    lemma_stands_char(s, jl + 2, r.text(), 0);
    lemma_stands_char(s, jr, ")"@, 0);
    assert(s.subrange(i, i + 3) =~= "log"@);
    assert(stands_at(s, i, "log"@));
    lemma_word_end_within(s, i, "log"@, 0);
    lemma_skip_to(s, i + 3, i + 3);
    lemma_skip_to(s, i + 4, i + 4);
    lemma_skip_to(s, jl, jl);
    lemma_skip_to(s, jl + 1, jl + 2);
    lemma_skip_to(s, jr, jr);
    lemma_reads_expr::<T>(l, s, i + 4, i + 4);
    lemma_reads_expr::<T>(r, s, jl + 1, jl + 2);
    assert("log"@ != "sin"@) by {
        assert("log"@[0] != "sin"@[0]);
    }
    assert("log"@ != "cos"@) by {
        assert("log"@[0] != "cos"@[0]);
    }
    assert(pair_at::<T>(s, i + 3) == Ok::<((ExprView<T>, ExprView<T>), int), int>(
        ((l.read_form(), r.read_form()), jr + 1),
    ));
}

/// The text of a sine or a cosine is read as the sine or the cosine of what
/// its argument is read as.
#[verifier::rlimit(50)]
pub proof fn lemma_reads_call<T: Numeric>(e: ExprView<T>, a: ExprView<T>, s: Seq<char>, i: int)
    requires
        e == ExprView::Sin(Box::new(a)) || e == ExprView::Cos(Box::new(a)),
        e.printable(),
        stands_at(s, i, e.text()),
    ensures
        named_at::<T>(s, i) == Ok::<(ExprView<T>, int), int>(
            (e.read_form(), i + e.text().len()),
        ),
    decreases e, 0int,
{
    reveal_strlit("sin(");
    reveal_strlit("cos(");
    reveal_strlit("sin");
    reveal_strlit("cos");
    reveal_strlit(")");
    let sine = e is Sin;
    let head = if sine {
        "sin("@
    } else {
        "cos("@
    };
    let word = if sine {
        "sin"@
    } else {
        "cos"@
    };
    assert(e.text() == head + a.text() + ")"@);
    lemma_stands_split(s, i, head + a.text(), ")"@);
    lemma_stands_split(s, i, head, a.text());
    a.lemma_text_begins();
    let ja = i + 4 + a.text().len();
    lemma_stands_char(s, i, head, 0);
    lemma_stands_char(s, i, head, 1);
    lemma_stands_char(s, i, head, 2);
    lemma_stands_char(s, i, head, 3);
    lemma_stands_char(s, i + 4, a.text(), 0);
    lemma_stands_char(s, ja, ")"@, 0);
    assert(s.subrange(i, i + 3) =~= word);
    assert(stands_at(s, i, word));
    lemma_word_end_within(s, i, word, 0);
    lemma_skip_to(s, i + 3, i + 3);
    lemma_skip_to(s, i + 4, i + 4);
    lemma_skip_to(s, ja, ja);
    lemma_reads_expr::<T>(a, s, i + 4, i + 4);
    assert("cos"@ != "sin"@) by {
        assert("cos"@[0] != "sin"@[0]);
    }
    assert(group_at::<T>(s, i + 3) == Ok::<(ExprView<T>, int), int>((a.read_form(), ja + 1)));
}

/// The text of an atomic formula is read as an atom.
pub proof fn lemma_reads_atom<T: Numeric>(e: ExprView<T>, s: Seq<char>, from: int, i: int)
    requires
        placed(e, s, from, i),
        e.is_atomic(),
    ensures
        atom_at::<T>(s, from) == Ok::<(ExprView<T>, int), int>(
            (e.read_form(), i + e.text().len()),
        ),
    decreases e, 1int,
{
    e.lemma_text_begins();
    lemma_stands_char(s, i, e.text(), 0);
    let j = i + e.text().len();
    match e {
        ExprView::Const(c) => {
            lemma_number_stands(s, i, c.text());
            assert(s.subrange(i, j) == c.text());
            assert(literal_at::<T>(s, i) == Ok::<(ExprView<T>, int), int>((e, j)));
        },
        ExprView::Var(w) => {
            lemma_word_end_within(s, i, w, 0);
            assert(s.subrange(i, j) == w);
            assert(named_at::<T>(s, i) == Ok::<(ExprView<T>, int), int>((e, j)));
        },
        ExprView::Add(l, r) => {
            lemma_reads_sum::<T>(e, *l, *r, s, i);
        },
        ExprView::Sub(l, r) => {
            lemma_reads_sum::<T>(e, *l, *r, s, i);
        },
        ExprView::Mul(l, r) => {
            lemma_reads_product::<T>(e, *l, *r, s, i);
        },
        ExprView::Div(l, r) => {
            lemma_reads_product::<T>(e, *l, *r, s, i);
        },
        ExprView::Pow(l, r) => {
            lemma_reads_power::<T>(e, *l, *r, s, i);
        },
        ExprView::Log(l, r) => {
            lemma_reads_log::<T>(e, *l, *r, s, i);
        },
        ExprView::Neg(a) => {},
        ExprView::Sin(a) => {
            lemma_reads_call::<T>(e, *a, s, i);
        },
        ExprView::Cos(a) => {
            lemma_reads_call::<T>(e, *a, s, i);
        },
    }
}

/// The text of a printable formula is read as a factor, where no `^`
/// follows it.
pub proof fn lemma_reads_unary<T: Numeric>(e: ExprView<T>, s: Seq<char>, from: int, i: int)
    requires
        placed(e, s, from, i),
        next_char(s, i + e.text().len()) != '^',
    ensures
        unary_at::<T>(s, from) == Ok::<(ExprView<T>, int), int>(
            (e.read_form(), i + e.text().len()),
        ),
    decreases e, 2int,
{
    e.lemma_text_begins();
    lemma_stands_char(s, i, e.text(), 0);
    lemma_skip_to(s, i, i);
    let j = i + e.text().len();
    if e.is_atomic() {
        lemma_reads_atom::<T>(e, s, i, i);
        assert(power_at::<T>(s, i) == Ok::<(ExprView<T>, int), int>((e.read_form(), j)));
    } else {
        reveal_strlit("-");
        match e {
            ExprView::Neg(a) => {
                assert(e.text() == "-"@ + a.text());
                lemma_stands_split(s, i, "-"@, a.text());
                a.lemma_text_begins();
                lemma_stands_char(s, i + 1, a.text(), 0);
                lemma_skip_to(s, i + 1, i + 1);
                lemma_reads_unary::<T>(*a, s, i + 1, i + 1);
            },
            ExprView::Const(c) => {
                let t = c.text().subrange(1, c.text().len() as int);
                let m = T::literal(t)->Some_0;
                assert(c.text() =~= "-"@ + t);
                lemma_stands_split(s, i, "-"@, t);
                lemma_number_stands(s, i + 1, t);
                assert(s.subrange(i + 1, j) == t);
                assert(literal_at::<T>(s, i + 1) == Ok::<(ExprView<T>, int), int>(
                    (ExprView::Const(m), j),
                ));
                assert(atom_at::<T>(s, i + 1) == literal_at::<T>(s, i + 1));
                assert(power_at::<T>(s, i + 1) == Ok::<(ExprView<T>, int), int>(
                    (ExprView::Const(m), j),
                ));
                assert(unary_at::<T>(s, i + 1) == power_at::<T>(s, i + 1));
            },
            _ => {},
        }
    }
}

/// The text of a printable formula is read as a term, where none of `*`,
/// `/` and `^` follows it.
pub proof fn lemma_reads_term<T: Numeric>(e: ExprView<T>, s: Seq<char>, from: int, i: int)
    requires
        placed(e, s, from, i),
        next_char(s, i + e.text().len()) != '^',
        next_char(s, i + e.text().len()) != '*',
        next_char(s, i + e.text().len()) != '/',
    ensures
        term_at::<T>(s, from) == Ok::<(ExprView<T>, int), int>(
            (e.read_form(), i + e.text().len()),
        ),
    decreases e, 3int,
{
    e.lemma_text_begins();
    lemma_reads_unary::<T>(e, s, from, i);
    lemma_product_stops::<T>(s, i + e.text().len(), e.read_form());
}

/// The text of a printable formula is read as a sum, where no operator
/// follows it.
pub proof fn lemma_reads_expr<T: Numeric>(e: ExprView<T>, s: Seq<char>, from: int, i: int)
    requires
        placed(e, s, from, i),
        next_char(s, i + e.text().len()) != '^',
        next_char(s, i + e.text().len()) != '*',
        next_char(s, i + e.text().len()) != '/',
        next_char(s, i + e.text().len()) != '+',
        next_char(s, i + e.text().len()) != '-',
    ensures
        expr_at::<T>(s, from) == Ok::<(ExprView<T>, int), int>(
            (e.read_form(), i + e.text().len()),
        ),
    decreases e, 4int,
{
    e.lemma_text_begins();
    lemma_reads_term::<T>(e, s, from, i);
    lemma_sum_stops::<T>(s, i + e.text().len(), e.read_form());
}

/// Two texts of ASCII characters make one when joined.
pub proof fn lemma_ascii_joined(a: Seq<char>, b: Seq<char>)
    requires
        is_ascii_chars(a),
        is_ascii_chars(b),
    ensures
        is_ascii_chars(a + b),
{
    assert forall|k: int| 0 <= k < (a + b).len() implies '\0' <= #[trigger] (a + b)[k]
        <= '\u{7f}' by {
        if k < a.len() {
            assert((a + b)[k] == a[k]);
        } else {
            assert((a + b)[k] == b[k - a.len()]);
        }
    }
}

/// A text of five parts of ASCII characters is one of ASCII characters.
pub proof fn lemma_ascii_five(
    a: Seq<char>,
    b: Seq<char>,
    c: Seq<char>,
    d: Seq<char>,
    e: Seq<char>,
)
    requires
        is_ascii_chars(a),
        is_ascii_chars(b),
        is_ascii_chars(c),
        is_ascii_chars(d),
        is_ascii_chars(e),
    ensures
        is_ascii_chars(a + b + c + d + e),
{
    lemma_ascii_joined(a, b);
    lemma_ascii_joined(a + b, c);
    lemma_ascii_joined(a + b + c, d);
    lemma_ascii_joined(a + b + c + d, e);
}

/// A name holds only ASCII characters.
pub proof fn lemma_name_ascii(w: Seq<char>)
    requires
        is_name(w),
    ensures
        is_ascii_chars(w),
{
    assert forall|k: int| 0 <= k < w.len() implies '\0' <= #[trigger] w[k] <= '\u{7f}' by {
        assert(is_word_char(w[k]));
    }
}

/// The text of a constant that reads back holds only ASCII characters.
pub proof fn lemma_constant_ascii<T: Numeric>(c: T)
    requires
        reads_back(c),
    ensures
        is_ascii_chars(c.text()),
{
    let t = c.text();
    if reads_plain(c) {
        lemma_number_chars(t);
        assert forall|k: int| 0 <= k < t.len() implies '\0' <= #[trigger] t[k] <= '\u{7f}' by {
            assert(is_digit(t[k]) || t[k] == '.');
        }
    } else {
        let u = t.subrange(1, t.len() as int);
        lemma_number_chars(u);
        assert forall|k: int| 0 <= k < t.len() implies '\0' <= #[trigger] t[k] <= '\u{7f}' by {
            if k > 0 {
                assert(t[k] == u[k - 1]);
                assert(is_digit(u[k - 1]) || u[k - 1] == '.');
            }
        }
    }
}

impl<T: Numeric> ExprView<T> {
    /// The text of a printable formula holds only ASCII characters.
    pub proof fn lemma_text_ascii(self)
        requires
            self.printable(),
        ensures
            is_ascii_chars(self.text()),
        decreases self,
    {
        reveal_strlit("(");
        reveal_strlit(")");
        reveal_strlit(" + ");
        reveal_strlit(" - ");
        reveal_strlit(" * ");
        reveal_strlit(" / ");
        reveal_strlit("^");
        reveal_strlit("log(");
        reveal_strlit(", ");
        reveal_strlit("-");
        reveal_strlit("sin(");
        reveal_strlit("cos(");
        match self {
            ExprView::Const(c) => {
                lemma_constant_ascii(c);
            },
            ExprView::Var(w) => {
                lemma_name_ascii(w);
            },
            ExprView::Add(l, r) => {
                l.lemma_text_ascii();
                r.lemma_text_ascii();
                lemma_ascii_five("("@, l.text(), " + "@, r.text(), ")"@);
            },
            ExprView::Sub(l, r) => {
                l.lemma_text_ascii();
                r.lemma_text_ascii();
                lemma_ascii_five("("@, l.text(), " - "@, r.text(), ")"@);
            },
            ExprView::Mul(l, r) => {
                l.lemma_text_ascii();
                r.lemma_text_ascii();
                lemma_ascii_five("("@, l.text(), " * "@, r.text(), ")"@);
            },
            ExprView::Div(l, r) => {
                l.lemma_text_ascii();
                r.lemma_text_ascii();
                lemma_ascii_five("("@, l.text(), " / "@, r.text(), ")"@);
            },
            ExprView::Pow(l, r) => {
                l.lemma_text_ascii();
                r.lemma_text_ascii();
                lemma_ascii_five("("@, l.text(), "^"@, r.text(), ")"@);
            },
            ExprView::Log(l, r) => {
                l.lemma_text_ascii();
                r.lemma_text_ascii();
                lemma_ascii_five("log("@, l.text(), ", "@, r.text(), ")"@);
            },
            ExprView::Neg(a) => {
                a.lemma_text_ascii();
                lemma_ascii_joined("-"@, a.text());
            },
            ExprView::Sin(a) => {
                a.lemma_text_ascii();
                lemma_ascii_joined("sin("@, a.text());
                lemma_ascii_joined("sin("@ + a.text(), ")"@);
            },
            ExprView::Cos(a) => {
                a.lemma_text_ascii();
                lemma_ascii_joined("cos("@, a.text());
                lemma_ascii_joined("cos("@ + a.text(), ")"@);
            },
        }
    }

    /// Reading the text of a printable formula gives a formula that has the
    /// same value at every argument.
    pub proof fn lemma_round_trip(self)
        requires
            self.printable(),
        ensures
            read_expr::<T>(self.text()) == Ok::<ExprView<T>, crate::parse::ParseError>(
                self.read_form(),
            ),
            forall|x: T| #[trigger] self.read_form().eval(x) == self.eval(x),
    {
        let s = self.text();
        self.lemma_text_ascii();
        self.lemma_text_begins();
        assert(s.subrange(0, s.len() as int) =~= s);
        lemma_skip_to(s, 0, 0);
        lemma_skip_to(s, s.len() as int, s.len() as int);
        lemma_reads_expr::<T>(self, s, 0, 0);
        assert forall|x: T| #[trigger] self.read_form().eval(x) == self.eval(x) by {
            self.lemma_read_form_value(x);
        }
    }
}

/// A name that stands in `s` at `i`, after white space from `from` on, and
/// before a character that cannot be part of a name, is read as that name.
pub proof fn lemma_reads_name(w: Seq<char>, s: Seq<char>, from: int, i: int)
    requires
        is_name(w),
        0 <= from <= i,
        skip_spaces(s, from) == i,
        stands_at(s, i, w),
        !is_word_char(peek(s, i + w.len())),
    ensures
        name_at(s, from) == Ok::<(Seq<char>, int), int>((w, i + w.len())),
{
    lemma_stands_char(s, i, w, 0);
    lemma_word_end_within(s, i, w, 0);
}

/// A text that holds a name, an equals sign between two spaces and the text
/// of a printable formula is read as the equation of the two.
pub proof fn lemma_reads_labelled<T: Numeric>(lhs: Seq<char>, rhs: ExprView<T>, s: Seq<char>)
    requires
        is_name(lhs),
        rhs.printable(),
        stands_at(s, 0, lhs),
        stands_at(s, lhs.len() as int, " = "@),
        stands_at(s, lhs.len() as int + 3, rhs.text()),
        s.len() == lhs.len() + 3 + rhs.text().len(),
    ensures
        equation_at::<T>(s) == Ok::<(EquationView<T>, int), int>(
            (EquationView { lhs, rhs: rhs.read_form() }, s.len() as int),
        ),
{
    let n = lhs.len() as int;
    reveal_strlit(" = ");
    lemma_stands_char(s, n, " = "@, 0);
    lemma_stands_char(s, n, " = "@, 1);
    lemma_stands_char(s, n, " = "@, 2);
    lemma_stands_char(s, 0, lhs, 0);
    lemma_skip_to(s, 0, 0);
    lemma_reads_name(lhs, s, 0, 0);
    lemma_skip_to(s, n, n + 1);
    rhs.lemma_text_begins();
    lemma_stands_char(s, n + 3, rhs.text(), 0);
    lemma_skip_to(s, n + 2, n + 3);
    lemma_skip_to(s, s.len() as int, s.len() as int);
    lemma_reads_expr::<T>(rhs, s, n + 2, n + 3);
}

impl<T: Numeric> EquationView<T> {
    /// Whether the text of the equation can be read back: its label is a
    /// proper name and its formula is printable.
    pub open spec fn printable(self) -> bool {
        is_name(self.lhs) && self.rhs.printable()
    }

    /// The text of a printable equation holds only ASCII characters.
    pub proof fn lemma_text_ascii(self)
        requires
            self.printable(),
        ensures
            is_ascii_chars(self.text()),
    {
        reveal_strlit(" = ");
        lemma_name_ascii(self.lhs);
        self.rhs.lemma_text_ascii();
        lemma_ascii_joined(self.lhs, " = "@);
        lemma_ascii_joined(self.lhs + " = "@, self.rhs.text());
    }

    /// The parts of the text of an equation stand where their lengths put
    /// them.
    pub proof fn lemma_text_parts(self)
        ensures
            stands_at(self.text(), 0, self.lhs),
            stands_at(self.text(), self.lhs.len() as int, " = "@),
            stands_at(self.text(), self.lhs.len() as int + 3, self.rhs.text()),
            self.text().len() == self.lhs.len() + 3 + self.rhs.text().len(),
    {
        reveal_strlit(" = ");
        let s = self.text();
        assert(s.subrange(0, s.len() as int) =~= s);
        lemma_stands_split(s, 0, self.lhs + " = "@, self.rhs.text());
        lemma_stands_split(s, 0, self.lhs, " = "@);
    }

    /// The text of a printable equation is read, up to its end, as the
    /// label and what the formula is read as.
    pub proof fn lemma_reads(self)
        requires
            self.printable(),
        ensures
            equation_at::<T>(self.text()) == Ok::<(EquationView<T>, int), int>(
                (
                    EquationView { lhs: self.lhs, rhs: self.rhs.read_form() },
                    self.text().len() as int,
                ),
            ),
    {
        let s = self.text();
        let n = self.lhs.len() as int;
        self.lemma_text_parts();
        lemma_reads_labelled::<T>(self.lhs, self.rhs, s);
    }

    /// Reading the text of a printable equation gives an equation with the
    /// same label that has the same value at every argument.
    pub proof fn lemma_round_trip(self)
        requires
            self.printable(),
        ensures
            read_equation::<T>(self.text()) == Ok::<EquationView<T>, crate::parse::ParseError>(
                EquationView { lhs: self.lhs, rhs: self.rhs.read_form() },
            ),
            forall|x: T|
                #[trigger] (EquationView { lhs: self.lhs, rhs: self.rhs.read_form() }).eval(x)
                    == self.eval(x),
    {
        let s = self.text();
        self.lemma_text_ascii();
        self.lemma_reads();
        lemma_skip_to(s, s.len() as int, s.len() as int);
        assert forall|x: T|
            #[trigger] (EquationView { lhs: self.lhs, rhs: self.rhs.read_form() }).eval(x)
                == self.eval(x) by {
            self.rhs.lemma_read_form_value(x);
        }
    }
}

} // verus!
