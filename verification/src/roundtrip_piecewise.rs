use crate::ast::{CaseCondition, CaseView, Interval, Openness, PiecewiseView};
use crate::lexer::skip_spaces;
use crate::numeric::Numeric;
use crate::parse::ParseError;
use crate::read::{
    case_at, cases_at, piecewise_at, read_condition, read_interval, read_piecewise,
};
use crate::roundtrip::{
    is_name, lemma_ascii_five, lemma_ascii_joined, lemma_constant_ascii, lemma_name_ascii,
    lemma_reads_name, lemma_skip_to, lemma_stands_char, lemma_stands_split, stands_at,
};
use crate::roundtrip_cases::{lemma_condition_begins, lemma_reads_case, lemma_reads_condition};
use vstd::prelude::*;
use vstd::utf8::is_ascii_chars;

verus! {

impl<T: Numeric> CaseCondition<T> {
    /// The text of a printable guard holds only ASCII characters.
    pub proof fn lemma_text_ascii(self)
        requires
            self.printable(),
        ensures
            is_ascii_chars(self.text()),
    {
        reveal_strlit("otherwise");
        reveal_strlit("[");
        reveal_strlit("(");
        reveal_strlit(", ");
        reveal_strlit("]");
        reveal_strlit(")");
        match self {
            CaseCondition::Otherwise => {},
            CaseCondition::Interval(v) => {
                let open = match v.low_openness {
                    Openness::Closed => "["@,
                    Openness::Open => "("@,
                };
                let close = match v.high_openness {
                    Openness::Closed => "]"@,
                    Openness::Open => ")"@,
                };
                lemma_constant_ascii(v.low_val);
                lemma_constant_ascii(v.high_val);
                lemma_ascii_five(open, v.low_val.text(), ", "@, v.high_val.text(), close);
            },
        }
    }
}

impl<T: Numeric> CaseCondition<T> {
    /// Reading the text of a printable guard gives the guard itself.
    pub proof fn lemma_round_trip(self)
        requires
            self.printable(),
        ensures
            read_condition::<T>(self.text()) == Ok::<CaseCondition<T>, ParseError>(self),
    {
        let s = self.text();
        self.lemma_text_ascii();
        lemma_condition_begins(self);
        assert(s.subrange(0, s.len() as int) =~= s);
        lemma_skip_to(s, 0, 0);
        lemma_skip_to(s, s.len() as int, s.len() as int);
        lemma_reads_condition::<T>(self, s, 0, 0);
    }
}

impl<T: Numeric> Interval<T> {
    /// Reading the text of a printable interval gives the interval itself.
    pub proof fn lemma_round_trip(self)
        requires
            self.printable(),
        ensures
            read_interval::<T>(self.text()) == Ok::<Interval<T>, ParseError>(self),
    {
        let s = self.text();
        let guard = CaseCondition::Interval(self);
        guard.lemma_text_ascii();
        lemma_condition_begins(guard);
        assert(s.subrange(0, s.len() as int) =~= s);
        lemma_skip_to(s, 0, 0);
        lemma_skip_to(s, s.len() as int, s.len() as int);
        crate::roundtrip_cases::lemma_reads_interval::<T>(self, s, 0, 0);
    }
}

impl<T: Numeric> CaseView<T> {
    /// The line of a printable case holds only ASCII characters.
    pub proof fn lemma_text_ascii(self)
        requires
            self.printable(),
        ensures
            is_ascii_chars(self.text()),
    {
        reveal_strlit("  ");
        reveal_strlit(" if ");
        self.body.lemma_text_ascii();
        self.condition.lemma_text_ascii();
        lemma_ascii_joined("  "@, self.body.text());
        lemma_ascii_joined("  "@ + self.body.text(), " if "@);
        lemma_ascii_joined("  "@ + self.body.text() + " if "@, self.condition.text());
    }

    /// The line of a printable case begins with two spaces, and what follows
    /// them is neither white space nor a closing brace nor a comma.
    pub proof fn lemma_text_begins(self)
        requires
            self.printable(),
        ensures
            self.text().len() > 2,
            self.text()[0] == ' ',
            self.text()[1] == ' ',
            !crate::lexer::is_space(self.text()[2]),
            self.text()[2] != '}',
            self.text()[2] != ',',
    {
        reveal_strlit("  ");
        self.body.lemma_text_begins();
        let t = self.text();
        assert(t == "  "@ + self.body.text() + " if "@ + self.condition.text());
        assert(t[0] == "  "@[0]);
        assert(t[1] == "  "@[1]);
        assert(t[2] == self.body.text()[0]);
    }
}

/// Where a line break and the line of a printable case stand in `s` at `e`,
/// before another line break, reading the cases from `e` on takes that case
/// and goes on after it.
pub proof fn lemma_reads_row<T: Numeric>(
    case: CaseView<T>,
    s: Seq<char>,
    e: int,
    before: Seq<CaseView<T>>,
)
    requires
        case.printable(),
        0 <= e,
        stands_at(s, e, "\n"@),
        stands_at(s, e + 1, case.text()),
        crate::lexer::peek(s, e + 1 + case.text().len()) == '\n',
    ensures
        cases_at::<T>(s, e, before) == cases_at::<T>(
            s,
            e + 1 + case.text().len(),
            before.push(case.read_form()),
        ),
{
    let t = case.text();
    assert(s[e] == '\n') by {
        reveal_strlit("\n");
        lemma_stands_char(s, e, "\n"@, 0);
    }
    case.lemma_text_begins();
    lemma_stands_char(s, e + 1, t, 0);
    lemma_stands_char(s, e + 1, t, 1);
    lemma_stands_char(s, e + 1, t, 2);
    lemma_skip_to(s, e, e + 3);
    lemma_skip_to(s, e + 3, e + 3);
    lemma_reads_case::<T>(case, s, e + 3, e + 1);
    assert(case_at::<T>(s, e + 3) == Ok::<(CaseView<T>, int), int>(
        (case.read_form(), e + 1 + t.len()),
    ));
}

/// Where only white space stands in `s` between `e` and a closing brace at
/// `close`, reading the cases from `e` on ends after the brace.
pub proof fn lemma_cases_close<T: Numeric>(
    s: Seq<char>,
    e: int,
    close: int,
    before: Seq<CaseView<T>>,
)
    requires
        0 <= e <= close < s.len(),
        skip_spaces(s, e) == close,
        s[close] == '}',
    ensures
        cases_at::<T>(s, e, before) == Ok::<(Seq<CaseView<T>>, int), int>((before, close + 1)),
{
}

/// A text that holds a name, an opening brace, rows of cases, a line break
/// and a closing brace is read as the piecewise function of that name with
/// the cases that the rows are read as.
pub proof fn lemma_reads_braced<T: Numeric>(
    lhs: Seq<char>,
    s: Seq<char>,
    read: Seq<CaseView<T>>,
    rows_len: int,
)
    requires
        is_name(lhs),
        0 <= rows_len,
        stands_at(s, 0, lhs),
        stands_at(s, lhs.len() as int, "{"@),
        stands_at(s, lhs.len() as int + 1 + rows_len, "\n}"@),
        s.len() == lhs.len() as int + 1 + rows_len + 2,
        cases_at::<T>(s, lhs.len() as int + 1, Seq::empty()) == cases_at::<T>(
            s,
            lhs.len() as int + 1 + rows_len,
            read,
        ),
    ensures
        piecewise_at::<T>(s) == Ok::<(PiecewiseView<T>, int), int>(
            (PiecewiseView { lhs, cases: read }, s.len() as int),
        ),
{
    reveal_strlit("{");
    reveal_strlit("\n}");
    let w = lhs.len() as int;
    let e = w + 1 + rows_len;
    lemma_stands_char(s, w, "{"@, 0);
    lemma_stands_char(s, e, "\n}"@, 0);
    lemma_stands_char(s, e, "\n}"@, 1);
    lemma_stands_char(s, 0, lhs, 0);
    lemma_skip_to(s, 0, 0);
    lemma_reads_name(lhs, s, 0, 0);
    lemma_skip_to(s, w, w);
    lemma_skip_to(s, e, e + 1);
    lemma_cases_close::<T>(s, e, e + 1, read);
}

impl<T: Numeric> PiecewiseView<T> {
    /// Whether the text of the piecewise function can be read back: its
    /// label is a proper name and each of its cases is printable.
    pub open spec fn printable(self) -> bool {
        &&& is_name(self.lhs)
        &&& forall|i: int| 0 <= i < self.cases.len() ==> (#[trigger] self.cases[i]).printable()
    }

    /// The piecewise function that the text is read as: the same label and
    /// guards, and each formula as its text is read.
    pub open spec fn read_form(self) -> PiecewiseView<T> {
        PiecewiseView {
            lhs: self.lhs,
            cases: Seq::new(self.cases.len(), |i: int| self.cases[i].read_form()),
        }
    }

    /// The lines of the first `count` cases, each with a line break before
    /// it.
    pub open spec fn rows(self, count: int) -> Seq<char>
        decreases count,
    {
        if count <= 0 {
            Seq::empty()
        } else {
            self.rows(count - 1) + "\n"@ + self.cases[count - 1].text()
        }
    }

    /// The lines joined by line breaks, with one more line break before
    /// them, are the rows.
    pub proof fn lemma_lines_are_rows(self, count: int)
        requires
            1 <= count,
        ensures
            "\n"@ + self.lines(count) =~= self.rows(count),
        decreases count,
    {
        if count == 1 {
            assert(self.rows(0) =~= Seq::<char>::empty());
            assert(self.rows(1) =~= "\n"@ + self.cases[0].text());
        } else {
            self.lemma_lines_are_rows(count - 1);
            assert(self.lines(count) == self.lines(count - 1) + "\n"@ + self.cases[count
                - 1].text());
        }
    }

    /// The rows of printable cases hold only ASCII characters.
    pub proof fn lemma_rows_ascii(self, count: int)
        requires
            self.printable(),
            0 <= count <= self.cases.len(),
        ensures
            is_ascii_chars(self.rows(count)),
        decreases count,
    {
        reveal_strlit("\n");
        if count > 0 {
            self.lemma_rows_ascii(count - 1);
            self.cases[count - 1].lemma_text_ascii();
            lemma_ascii_joined(self.rows(count - 1), "\n"@);
            lemma_ascii_joined(self.rows(count - 1) + "\n"@, self.cases[count - 1].text());
        }
    }

    /// Where the first `count` rows stand in `s` at `m`, before a line
    /// break, reading the cases from `m` on comes, after `count` cases, to
    /// the end of those rows.
    pub proof fn lemma_reads_rows(self, s: Seq<char>, m: int, count: int)
        requires
            self.printable(),
            0 <= count <= self.cases.len(),
            0 <= m,
            stands_at(s, m, self.rows(count)),
            crate::lexer::peek(s, m + self.rows(count).len()) == '\n',
        ensures
            cases_at::<T>(s, m, Seq::empty()) == cases_at::<T>(
                s,
                m + self.rows(count).len(),
                self.read_form().cases.take(count),
            ),
        decreases count,
    {
        let read = self.read_form().cases;
        if count == 0 {
            assert(read.take(0) =~= Seq::<CaseView<T>>::empty());
            assert(self.rows(0).len() == 0);
        } else {
            let before = self.rows(count - 1);
            let case = self.cases[count - 1];
            let e = m + before.len();
            assert(self.rows(count) == before + "\n"@ + case.text());
            lemma_stands_split(s, m, before + "\n"@, case.text());
            lemma_stands_split(s, m, before, "\n"@);
            assert("\n"@.len() == 1 && "\n"@[0] == '\n') by {
                reveal_strlit("\n");
            }
            lemma_stands_char(s, e, "\n"@, 0);
            self.lemma_reads_rows(s, m, count - 1);
            assert(case.printable());
            lemma_reads_row::<T>(case, s, e, read.take(count - 1));
            assert(read.take(count - 1).push(case.read_form()) =~= read.take(count));
        }
    }

    /// The text of a printable piecewise function holds only ASCII
    /// characters.
    pub proof fn lemma_text_ascii(self)
        requires
            self.printable(),
        ensures
            is_ascii_chars(self.text()),
    {
        reveal_strlit("{\n");
        reveal_strlit("\n}");
        reveal_strlit("\n");
        let n = self.cases.len() as int;
        lemma_name_ascii(self.lhs);
        if n > 0 {
            self.lemma_rows_ascii(n);
            self.lemma_lines_are_rows(n);
            let lines = self.lines(n);
            assert forall|k: int| 0 <= k < lines.len() implies '\0' <= #[trigger] lines[k]
                <= '\u{7f}' by {
                assert(("\n"@ + lines)[k + 1] == lines[k]);
            }
        } else {
            assert(self.lines(0) =~= Seq::<char>::empty());
        }
        lemma_ascii_joined(self.lhs, "{\n"@);
        lemma_ascii_joined(self.lhs + "{\n"@, self.lines(n));
        lemma_ascii_joined(self.lhs + "{\n"@ + self.lines(n), "\n}"@);
    }

    /// The text of a piecewise function is its label, an opening brace, its
    /// rows, a line break and a closing brace; without any case, one line
    /// break stands in place of the rows.
    pub proof fn lemma_text_by_rows(self)
        ensures
            self.cases.len() > 0 ==> self.text() =~= self.lhs + "{"@ + self.rows(
                self.cases.len() as int,
            ) + "\n}"@,
            self.cases.len() == 0 ==> self.text() =~= self.lhs + "{"@ + "\n"@ + "\n}"@,
    {
        reveal_strlit("{\n");
        reveal_strlit("\n");
        reveal_strlit("{");
        let n = self.cases.len() as int;
        assert("{\n"@ =~= "{"@ + "\n"@);
        if n > 0 {
            self.lemma_lines_are_rows(n);
            assert(self.lhs + "{\n"@ + self.lines(n) =~= self.lhs + "{"@ + ("\n"@ + self.lines(
                n,
            )));
        } else {
            assert(self.lines(0) =~= Seq::<char>::empty());
        }
    }

    /// The parts of the text of a piecewise function stand where their
    /// lengths put them.
    pub proof fn lemma_text_parts(self)
        ensures
            stands_at(self.text(), 0, self.lhs),
            stands_at(self.text(), self.lhs.len() as int, "{"@),
            self.cases.len() > 0 ==> {
                let rows = self.rows(self.cases.len() as int);
                &&& stands_at(self.text(), self.lhs.len() as int + 1, rows)
                &&& stands_at(self.text(), self.lhs.len() as int + 1 + rows.len(), "\n}"@)
                &&& self.text().len() == self.lhs.len() + 1 + rows.len() + 2
            },
            self.cases.len() == 0 ==> {
                &&& stands_at(self.text(), self.lhs.len() as int + 1, "\n"@)
                &&& stands_at(self.text(), self.lhs.len() as int + 2, "\n}"@)
                &&& self.text().len() == self.lhs.len() + 4
            },
    {
        let s = self.text();
        self.lemma_text_by_rows();
        assert(s.subrange(0, s.len() as int) =~= s);
        assert("{"@.len() == 1 && "\n}"@.len() == 2 && "\n"@.len() == 1) by {
            reveal_strlit("{");
            reveal_strlit("\n}");
            reveal_strlit("\n");
        }
        if self.cases.len() == 0 {
            lemma_stands_split(s, 0, self.lhs + "{"@ + "\n"@, "\n}"@);
            lemma_stands_split(s, 0, self.lhs + "{"@, "\n"@);
            lemma_stands_split(s, 0, self.lhs, "{"@);
        } else {
            let rows = self.rows(self.cases.len() as int);
            lemma_stands_split(s, 0, self.lhs + "{"@ + rows, "\n}"@);
            lemma_stands_split(s, 0, self.lhs + "{"@, rows);
            lemma_stands_split(s, 0, self.lhs, "{"@);
        }
    }

    /// The text of a printable piecewise function without a case is read, up
    /// to its end, as that function.
    #[verifier::rlimit(50)]
    pub proof fn lemma_reads_empty(self)
        requires
            self.printable(),
            self.cases.len() == 0,
        ensures
            piecewise_at::<T>(self.text()) == Ok::<(PiecewiseView<T>, int), int>(
                (self.read_form(), self.text().len() as int),
            ),
    {
        let s = self.text();
        let w = self.lhs.len() as int;
        let read = self.read_form().cases;
        self.lemma_text_parts();
        assert(read =~= Seq::<CaseView<T>>::empty());
        assert(s[w + 1] == '\n' && s[w + 2] == '\n' && s[w + 3] == '}') by {
            reveal_strlit("\n}");
            reveal_strlit("\n");
            lemma_stands_char(s, w + 1, "\n"@, 0);
            lemma_stands_char(s, w + 2, "\n}"@, 0);
            lemma_stands_char(s, w + 2, "\n}"@, 1);
        }
        lemma_skip_to(s, w + 1, w + 3);
        lemma_skip_to(s, w + 2, w + 3);
        lemma_cases_close::<T>(s, w + 1, w + 3, read);
        lemma_cases_close::<T>(s, w + 2, w + 3, read);
        lemma_reads_braced::<T>(self.lhs, s, read, 1);
    }

    /// The text of a printable piecewise function is read, up to its end, as
    /// the function with each formula as its text is read.
    pub proof fn lemma_reads(self)
        requires
            self.printable(),
        ensures
            piecewise_at::<T>(self.text()) == Ok::<(PiecewiseView<T>, int), int>(
                (self.read_form(), self.text().len() as int),
            ),
    {
        let s = self.text();
        let n = self.cases.len() as int;
        let w = self.lhs.len() as int;
        let read = self.read_form().cases;
        if n == 0 {
            self.lemma_reads_empty();
        } else {
            self.lemma_text_parts();
            let rows = self.rows(n);
            let e = w + 1 + rows.len();
            assert(s[e] == '\n') by {
                reveal_strlit("\n}");
                lemma_stands_char(s, e, "\n}"@, 0);
            }
            self.lemma_reads_rows(s, w + 1, n);
            assert(read.take(n) =~= read);
            lemma_reads_braced::<T>(self.lhs, s, read, rows.len() as int);
        }
    }

    /// What the text is read as selects the same case at every argument.
    pub proof fn lemma_read_form_selects(self, from: int, x: T)
        ensures
            self.read_form().first_match(from, x) == self.first_match(from, x),
        decreases self.cases.len() - from,
    {
        if 0 <= from < self.cases.len() - 1 {
            assert(self.read_form().cases[from].condition == self.cases[from].condition);
            self.lemma_read_form_selects(from + 1, x);
        }
    }

    /// Reading the text of a printable piecewise function gives one with the
    /// same label and the same guards, which, where there is a case at all,
    /// has the same value at every argument.
    pub proof fn lemma_round_trip(self)
        requires
            self.printable(),
        ensures
            read_piecewise::<T>(self.text()) == Ok::<PiecewiseView<T>, ParseError>(
                self.read_form(),
            ),
            self.cases.len() > 0 ==> forall|x: T|
                #[trigger] self.read_form().eval(x) == self.eval(x),
    {
        let s = self.text();
        self.lemma_text_ascii();
        self.lemma_reads();
        lemma_skip_to(s, s.len() as int, s.len() as int);
        if self.cases.len() > 0 {
            assert forall|x: T| #[trigger] self.read_form().eval(x) == self.eval(x) by {
                self.lemma_read_form_selects(0, x);
                self.lemma_selected_first(0, x);
                let k = self.selected(x);
                assert(self.cases[k].printable());
                self.cases[k].body.lemma_read_form_value(x);
            }
        }
    }
}

} // verus!
