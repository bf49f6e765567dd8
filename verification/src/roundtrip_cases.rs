use crate::ast::{CaseCondition, CaseView, Interval, Openness};
use crate::lexer::{is_digit, is_word_char, peek, skip_spaces};
use crate::numeric::Numeric;
use crate::read::{bound_at, case_at, condition_at, interval_at};
use crate::roundtrip::{
    clean_end, lemma_number_stands, lemma_reads_expr, lemma_skip_to, lemma_stands_char,
    lemma_stands_five, lemma_stands_split, lemma_word_end_within, reads_back, reads_plain,
    stands_at,
};
use vstd::prelude::*;

verus! {

impl<T: Numeric> Interval<T> {
    /// Whether the text of the interval can be read back: both ends read back
    /// as themselves.
    pub open spec fn printable(self) -> bool {
        reads_back(self.low_val) && reads_back(self.high_val)
    }
}

impl<T: Numeric> CaseCondition<T> {
    /// Whether the text of the guard can be read back.
    pub open spec fn printable(self) -> bool {
        match self {
            CaseCondition::Otherwise => true,
            CaseCondition::Interval(i) => i.printable(),
        }
    }
}

impl<T: Numeric> CaseView<T> {
    /// Whether the line of the case can be read back.
    pub open spec fn printable(self) -> bool {
        self.body.printable() && self.condition.printable()
    }

    /// The case that the line of the case is read as.
    pub open spec fn read_form(self) -> CaseView<T> {
        CaseView { condition: self.condition, body: self.body.read_form() }
    }
}

/// The text of a constant that reads back begins with a digit or a minus
/// sign.
pub proof fn lemma_constant_begins<T: Numeric>(c: T)
    requires
        reads_back(c),
    ensures
        c.text().len() > 0,
        is_digit(c.text()[0]) || c.text()[0] == '-',
{
}

/// The text of a constant that reads back is read as that constant where it
/// stands as an end of an interval.
pub proof fn lemma_reads_bound<T: Numeric>(c: T, s: Seq<char>, from: int, i: int)
    requires
        reads_back(c),
        0 <= from <= i,
        skip_spaces(s, from) == i,
        stands_at(s, i, c.text()),
        clean_end(s, i + c.text().len()),
    ensures
        bound_at::<T>(s, from) == Ok::<(T, int), int>((c, i + c.text().len())),
{
    let j = i + c.text().len();
    lemma_stands_char(s, i, c.text(), 0);
    if reads_plain(c) {
        lemma_number_stands(s, i, c.text());
        assert(s.subrange(i, j) == c.text());
    } else {
        let t = c.text().subrange(1, c.text().len() as int);
        reveal_strlit("-");
        assert(c.text() =~= "-"@ + t);
        lemma_stands_split(s, i, "-"@, t);
        lemma_number_stands(s, i + 1, t);
        assert(s.subrange(i + 1, j) == t);
    }
}

/// The text of a printable interval is read as that interval.
#[verifier::rlimit(50)]
pub proof fn lemma_reads_interval<T: Numeric>(v: Interval<T>, s: Seq<char>, from: int, i: int)
    requires
        v.printable(),
        0 <= from <= i,
        skip_spaces(s, from) == i,
        stands_at(s, i, v.text()),
    ensures
        interval_at::<T>(s, from) == Ok::<(Interval<T>, int), int>((v, i + v.text().len())),
{
    reveal_strlit("[");
    reveal_strlit("(");
    reveal_strlit(", ");
    reveal_strlit("]");
    reveal_strlit(")");
    let open = match v.low_openness {
        Openness::Closed => "["@,
        Openness::Open => "("@,
    };
    let close = match v.high_openness {
        Openness::Closed => "]"@,
        Openness::Open => ")"@,
    };
    let low = v.low_val.text();
    let high = v.high_val.text();
    assert(v.text() == open + low + ", "@ + high + close);
    lemma_stands_five(s, i, open, low, ", "@, high, close);
    lemma_constant_begins(v.low_val);
    lemma_constant_begins(v.high_val);
    let jl = i + 1 + low.len();
    let jh = jl + 2 + high.len();
    lemma_stands_char(s, i, open, 0);
    lemma_stands_char(s, i + 1, low, 0);
    lemma_stands_char(s, jl, ", "@, 0);
    lemma_stands_char(s, jl, ", "@, 1);
    lemma_stands_char(s, jl + 2, high, 0);
    lemma_stands_char(s, jh, close, 0);
    lemma_skip_to(s, i + 1, i + 1);
    lemma_skip_to(s, jl, jl);
    lemma_skip_to(s, jl + 1, jl + 2);
    lemma_skip_to(s, jh, jh);
    lemma_reads_bound::<T>(v.low_val, s, i + 1, i + 1);
    lemma_reads_bound::<T>(v.high_val, s, jl + 1, jl + 2);
}

/// The text of a printable guard is read as that guard, where no character
/// of a name follows it.
pub proof fn lemma_reads_condition<T: Numeric>(
    c: CaseCondition<T>,
    s: Seq<char>,
    from: int,
    i: int,
)
    requires
        c.printable(),
        0 <= from <= i,
        skip_spaces(s, from) == i,
        stands_at(s, i, c.text()),
        !is_word_char(peek(s, i + c.text().len())),
    ensures
        condition_at::<T>(s, from) == Ok::<(CaseCondition<T>, int), int>(
            (c, i + c.text().len()),
        ),
{
    match c {
        CaseCondition::Otherwise => {
            reveal_strlit("otherwise");
            lemma_stands_char(s, i, "otherwise"@, 0);
            lemma_word_end_within(s, i, "otherwise"@, 0);
        },
        CaseCondition::Interval(v) => {
            reveal_strlit("[");
            reveal_strlit("(");
            let open = match v.low_openness {
                Openness::Closed => "["@,
                Openness::Open => "("@,
            };
            let close = match v.high_openness {
                Openness::Closed => "]"@,
                Openness::Open => ")"@,
            };
            assert(v.text() == open + v.low_val.text() + ", "@ + v.high_val.text() + close);
            lemma_stands_five(s, i, open, v.low_val.text(), ", "@, v.high_val.text(), close);
            lemma_stands_char(s, i, open, 0);
            lemma_reads_interval::<T>(v, s, i, i);
            lemma_skip_to(s, i, i);
        },
    }
}

/// The line of a printable case is read as that case, where no character of
/// a name follows it.
#[verifier::rlimit(50)]
pub proof fn lemma_reads_case<T: Numeric>(c: CaseView<T>, s: Seq<char>, from: int, i: int)
    requires
        c.printable(),
        0 <= from <= i + 2,
        skip_spaces(s, from) == i + 2,
        stands_at(s, i, c.text()),
        !is_word_char(peek(s, i + c.text().len())),
    ensures
        case_at::<T>(s, from) == Ok::<(CaseView<T>, int), int>(
            (c.read_form(), i + c.text().len()),
        ),
{
    reveal_strlit("  ");
    reveal_strlit(" if ");
    reveal_strlit("if");
    let body = c.body.text();
    let guard = c.condition.text();
    assert(c.text() == "  "@ + body + " if "@ + guard);
    lemma_stands_split(s, i, "  "@ + body + " if "@, guard);
    lemma_stands_split(s, i, "  "@ + body, " if "@);
    lemma_stands_split(s, i, "  "@, body);
    c.body.lemma_text_begins();
    let jb = i + 2 + body.len();
    lemma_stands_char(s, jb, " if "@, 0);
    lemma_stands_char(s, jb, " if "@, 1);
    lemma_stands_char(s, jb, " if "@, 2);
    lemma_stands_char(s, jb, " if "@, 3);
    lemma_skip_to(s, jb, jb + 1);
    lemma_reads_expr::<T>(c.body, s, from, i + 2);
    assert(s.subrange(jb + 1, jb + 3) =~= "if"@);
    assert(stands_at(s, jb + 1, "if"@));
    lemma_word_end_within(s, jb + 1, "if"@, 0);
    lemma_condition_begins(c.condition);
    lemma_stands_char(s, jb + 4, guard, 0);
    lemma_skip_to(s, jb + 3, jb + 4);
    lemma_reads_condition::<T>(c.condition, s, jb + 3, jb + 4);
}

/// The text of a printable guard is not empty and begins with no white
/// space.
pub proof fn lemma_condition_begins<T: Numeric>(c: CaseCondition<T>)
    requires
        c.printable(),
    ensures
        c.text().len() > 0,
        c.text()[0] == 'o' || c.text()[0] == '[' || c.text()[0] == '(',
{
    reveal_strlit("otherwise");
    reveal_strlit("[");
    reveal_strlit("(");
    match c {
        CaseCondition::Otherwise => {},
        CaseCondition::Interval(v) => {
            let open = match v.low_openness {
                Openness::Closed => "["@,
                Openness::Open => "("@,
            };
            assert(v.text()[0] == open[0]);
        },
    }
}

} // verus!
