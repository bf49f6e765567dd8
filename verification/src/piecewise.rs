use crate::ast::{CaseCondition, Interval, Openness, Piecewise, PiecewiseView};
use crate::numeric::Numeric;
use vstd::prelude::*;

verus! {

/// What can be wrong with the cases of a piecewise function.
#[derive(Clone, Copy, PartialEq, Debug)]
pub enum PiecewiseError<T> {
    /// There is no case at all.
    EmptyCases,
    /// The interval starts before the interval of the case before it has
    /// ended.
    OverlappingInterval(Interval<T>),
    /// A case other than the last is guarded by `otherwise`.
    MisplacedOtherwise,
    /// The last case is not guarded by `otherwise`.
    MissingTrailingOtherwise,
}

impl<T: Numeric> Interval<T> {
    /// Whether this interval may come directly after `prev`: it starts no
    /// lower than `prev` ends, and where the two ends meet in one point, at
    /// most one of them is closed.
    pub open spec fn follows(self, prev: Interval<T>) -> bool {
        if self.low_openness is Closed && prev.high_openness is Closed {
            prev.high_val.rank() < self.low_val.rank()
        } else {
            prev.high_val.rank() <= self.low_val.rank()
        }
    }

    /// Whether `x` lies at or below the high end of the interval.
    pub open spec fn bounds(self, x: T) -> bool {
        match self.high_openness {
            Openness::Closed => x.rank() <= self.high_val.rank(),
            Openness::Open => x.rank() < self.high_val.rank(),
        }
    }

    /// Whether the high end of this interval reaches at least as far as the
    /// high end of `prev`.
    pub open spec fn ends_no_lower_than(self, prev: Interval<T>) -> bool {
        ||| prev.high_val.rank() < self.high_val.rank()
        ||| (prev.high_val.rank() == self.high_val.rank() && (prev.high_openness is Open
            || self.high_openness is Closed))
    }
}

impl<T: Numeric> PiecewiseView<T> {
    /// Whether case `i`, one before the last, breaks the rules: its guard is
    /// `otherwise`, or its interval does not follow that of the case before.
    pub open spec fn defect(self, i: int) -> bool {
        match self.cases[i].condition {
            CaseCondition::Otherwise => true,
            CaseCondition::Interval(next) => i > 0 && (match self.cases[i - 1].condition {
                CaseCondition::Otherwise => false,
                CaseCondition::Interval(prev) => !next.follows(prev),
            }),
        }
    }

    /// The first case from `from` on, the last left out, that breaks the
    /// rules; the index of the last case if there is none.
    pub open spec fn first_defect(self, from: int) -> int
        decreases self.cases.len() - from,
    {
        if from < 0 || from >= self.cases.len() - 1 {
            self.cases.len() - 1
        } else if self.defect(from) {
            from
        } else {
            self.first_defect(from + 1)
        }
    }

    /// What validation answers: the first thing wrong in the order of the
    /// cases, if anything is.
    pub open spec fn verdict(self) -> Result<(), PiecewiseError<T>> {
        let last = self.cases.len() - 1;
        let at = self.first_defect(0);
        if self.cases.len() == 0 {
            Err(PiecewiseError::EmptyCases)
        } else if at < last {
            match self.cases[at].condition {
                CaseCondition::Otherwise => Err(PiecewiseError::MisplacedOtherwise),
                CaseCondition::Interval(i) => Err(PiecewiseError::OverlappingInterval(i)),
            }
        } else if self.cases[last].condition is Otherwise {
            Ok(())
        } else {
            Err(PiecewiseError::MissingTrailingOtherwise)
        }
    }

    /// Whether case `i` is guarded by an interval.
    pub open spec fn has_interval(self, i: int) -> bool {
        self.cases[i].condition is Interval
    }

    /// Whether the interval of case `i` follows that of the case before it.
    pub open spec fn follows_previous(self, i: int) -> bool {
        self.cases[i].condition->Interval_0.follows(self.cases[i - 1].condition->Interval_0)
    }

    /// Whether the interval of case `i` ends no lower than that of the case
    /// before it.
    pub open spec fn ends_after_previous(self, i: int) -> bool {
        self.cases[i].condition->Interval_0.ends_no_lower_than(
            self.cases[i - 1].condition->Interval_0,
        )
    }

    /// The cases are in order: there is at least one, all but the last are
    /// guarded by intervals of which each follows the one before, and the last
    /// is guarded by `otherwise`.
    pub open spec fn valid(self) -> bool {
        &&& self.cases.len() > 0
        &&& forall|i: int| 0 <= i < self.cases.len() - 1 ==> #[trigger] self.has_interval(i)
        &&& forall|i: int| 0 < i < self.cases.len() - 1 ==> #[trigger] self.follows_previous(i)
        &&& self.cases[self.cases.len() - 1].condition is Otherwise
    }

    /// The first case from `from` on, the last left out, whose interval
    /// contains `x`; the index of the last case if there is none.
    pub open spec fn first_match(self, from: int, x: T) -> int
        decreases self.cases.len() - from,
    {
        if from < 0 || from >= self.cases.len() - 1 {
            self.cases.len() - 1
        } else if self.cases[from].condition.admits(x) {
            from
        } else {
            self.first_match(from + 1, x)
        }
    }

    /// The index of the case that applies to `x`.
    pub open spec fn selected(self, x: T) -> int {
        self.first_match(0, x)
    }

    /// The value of the function at `x`: that of the formula of the case that
    /// applies.
    pub open spec fn eval(self, x: T) -> T {
        self.cases[self.selected(x)].body.eval(x)
    }

    /// No interval ends lower than the interval of the case before it.
    pub open spec fn ends_ascend(self) -> bool {
        forall|i: int| 0 < i < self.cases.len() - 1 ==> #[trigger] self.ends_after_previous(i)
    }

    /// Where no case in `from..to` breaks the rules, the search for the first
    /// such case may start at `to`.
    pub proof fn lemma_first_defect_skips(self, from: int, to: int)
        requires
            0 <= from <= to <= self.cases.len() - 1,
            forall|j: int| from <= j < to ==> !self.defect(j),
        ensures
            self.first_defect(from) == self.first_defect(to),
        decreases to - from,
    {
        if from < to {
            self.lemma_first_defect_skips(from + 1, to);
        }
    }

    /// The first defect is a defect, and nothing before it is.
    pub proof fn lemma_first_defect(self, from: int)
        requires
            0 <= from,
            self.cases.len() > 0,
        ensures
            from <= self.cases.len() - 1 ==> from <= self.first_defect(from) <= self.cases.len()
                - 1,
            self.first_defect(from) < self.cases.len() - 1 ==> self.defect(
                self.first_defect(from),
            ),
            forall|j: int| from <= j < self.first_defect(from) ==> !self.defect(j),
        decreases self.cases.len() - from,
    {
        if from < self.cases.len() - 1 && !self.defect(from) {
            self.lemma_first_defect(from + 1);
        }
    }

    /// Validation succeeds on exactly the piecewise functions whose cases are
    /// in order.
    pub proof fn lemma_verdict_ok_iff_valid(self)
        ensures
            self.verdict() is Ok <==> self.valid(),
    {
        if self.cases.len() > 0 {
            self.lemma_first_defect(0);
            let last = self.cases.len() - 1;
            if self.first_defect(0) == last {
                assert forall|i: int| 0 <= i < last implies #[trigger] self.has_interval(i) by {
                    assert(!self.defect(i));
                }
                assert forall|i: int| 0 < i < last implies #[trigger] self.follows_previous(i) by {
                    assert(!self.defect(i));
                    assert(!self.defect(i - 1));
                }
            } else {
                let at = self.first_defect(0);
                assert(self.defect(at));
                if self.valid() {
                    assert(self.has_interval(at));
                    if at > 0 {
                        assert(self.has_interval(at - 1));
                        assert(self.follows_previous(at));
                    }
                }
            }
        }
    }

    /// The selected case is the first whose interval contains `x`, or the last
    /// case where no interval does: some case is selected for every `x`.
    pub proof fn lemma_selected_first(self, from: int, x: T)
        requires
            0 <= from,
            self.cases.len() > 0,
        ensures
            from <= self.cases.len() - 1 ==> from <= self.first_match(from, x) <= self.cases.len()
                - 1,
            self.first_match(from, x) < self.cases.len() - 1 ==> self.cases[self.first_match(
                from,
                x,
            )].condition.admits(x),
            forall|j: int|
                from <= j < self.first_match(from, x) ==> !(#[trigger] self.cases[j]).condition.admits(
                    x,
                ),
        decreases self.cases.len() - from,
    {
        if from < self.cases.len() - 1 && !self.cases[from].condition.admits(x) {
            self.lemma_selected_first(from + 1, x);
        }
    }

    /// In a valid piecewise function whose intervals end in ascending order, a
    /// point of the interval of case `k` lies at or below the high end of
    /// every later interval.
    pub proof fn lemma_stays_below(self, k: int, m: int, x: T)
        requires
            self.valid(),
            self.ends_ascend(),
            0 <= k <= m < self.cases.len() - 1,
            self.cases[k].condition.admits(x),
        ensures
            self.cases[m].condition is Interval,
            self.cases[m].condition->Interval_0.bounds(x),
        decreases m - k,
    {
        assert(self.has_interval(m));
        if k < m {
            self.lemma_stays_below(k, m - 1, x);
            assert(self.ends_after_previous(m));
        }
    }

    /// In a valid piecewise function whose intervals end in ascending order,
    /// a point of the interval of case `k` lies in the interval of no later
    /// case.
    pub proof fn lemma_later_cases_excluded(self, k: int, j: int, x: T)
        requires
            self.valid(),
            self.ends_ascend(),
            0 <= k < j < self.cases.len(),
            self.cases[k].condition.admits(x),
        ensures
            !self.cases[j].condition.admits(x),
    {
        if j < self.cases.len() - 1 {
            self.lemma_stays_below(k, j - 1, x);
            assert(self.has_interval(j));
            assert(self.follows_previous(j));
        }
    }

    /// In a valid piecewise function whose intervals end in ascending order,
    /// exactly one case applies to each `x`: either `x` lies in the interval of
    /// the selected case and in no other, or it lies in no interval and the
    /// trailing `otherwise` case is selected.
    pub proof fn lemma_exactly_one_case(self, x: T)
        requires
            self.valid(),
            self.ends_ascend(),
        ensures
            0 <= self.selected(x) < self.cases.len(),
            self.selected(x) < self.cases.len() - 1 ==> self.cases[self.selected(
                x,
            )].condition.admits(x),
            self.selected(x) == self.cases.len() - 1 ==> self.cases[self.selected(
                x,
            )].condition is Otherwise,
            forall|j: int|
                0 <= j < self.cases.len() && j != self.selected(x) ==> !(#[trigger] self.cases[j]).condition.admits(
                    x,
                ),
    {
        self.lemma_selected_first(0, x);
        let k = self.selected(x);
        assert forall|j: int| 0 <= j < self.cases.len() && j != k implies !(#[trigger] self.cases[j]).condition.admits(
            x,
        ) by {
            if k < j {
                if k < self.cases.len() - 1 {
                    self.lemma_later_cases_excluded(k, j, x);
                }
            }
        }
    }
}

/// Two intervals that share a boundary point, the first ending where the
/// second begins, may stand one after the other exactly when at most one of
/// them is closed at that point.
pub proof fn lemma_shared_boundary<T: Numeric>(prev: Interval<T>, next: Interval<T>)
    requires
        prev.high_val.rank() == next.low_val.rank(),
    ensures
        next.follows(prev) <==> !(prev.high_openness is Closed && next.low_openness is Closed),
{
}

/// A piecewise function of two interval cases that meet in one point and a
/// trailing `otherwise` is valid exactly when at most one of the two
/// intervals is closed at that point; with both closed, validation answers
/// with the second interval as overlapping.
pub proof fn lemma_adjacent_cases<T: Numeric>(
    p: PiecewiseView<T>,
    prev: Interval<T>,
    next: Interval<T>,
)
    requires
        p.cases.len() == 3,
        p.cases[0].condition == CaseCondition::Interval(prev),
        p.cases[1].condition == CaseCondition::Interval(next),
        p.cases[2].condition is Otherwise,
        prev.high_val.rank() == next.low_val.rank(),
    ensures
        p.valid() <==> !(prev.high_openness is Closed && next.low_openness is Closed),
        p.verdict() is Ok <==> p.valid(),
        !p.valid() ==> p.verdict() == Err::<(), PiecewiseError<T>>(
            PiecewiseError::OverlappingInterval(next),
        ),
{
    p.lemma_verdict_ok_iff_valid();
    p.lemma_first_defect(0);
    assert(!p.defect(0));
    if p.valid() {
        assert(p.follows_previous(1));
    } else if !(prev.high_openness is Closed && next.low_openness is Closed) {
        assert forall|i: int| 0 <= i < p.cases.len() - 1 implies #[trigger] p.has_interval(i) by {}
        assert forall|i: int| 0 < i < p.cases.len() - 1 implies #[trigger] p.follows_previous(
            i,
        ) by {}
    }
    reveal_with_fuel(PiecewiseView::first_defect, 3);
}

impl<T: Numeric> Piecewise<T> {
    /// Checks the order of the cases and names the first thing wrong with it.
    pub fn well_formed(&self) -> (out: Result<(), PiecewiseError<T>>)
        ensures
            out == self@.verdict(),
            out is Ok <==> self@.valid(),
    {
        proof {
            self@.lemma_verdict_ok_iff_valid();
        }
        let n = self.cases.len();
        if n == 0 {
            return Err(PiecewiseError::EmptyCases);
        }
        let mut last_high: Option<T> = None;
        let mut last_openness = Openness::Open;
        let mut i: usize = 0;
        while i < n - 1
            invariant
                n == self.cases.len(),
                n > 0,
                0 <= i <= n - 1,
                self@.verdict() is Ok <==> self@.valid(),
                forall|j: int| 0 <= j < i ==> !self@.defect(j),
                i == 0 ==> last_high is None,
                i > 0 ==> self@.cases[i - 1].condition is Interval && last_high == Some(
                    self@.cases[i - 1].condition->Interval_0.high_val,
                ) && last_openness == self@.cases[i - 1].condition->Interval_0.high_openness,
            decreases n - i,
        {
            proof {
                self@.lemma_first_defect_skips(0, i as int);
            }
            match &self.cases[i].0 {
                CaseCondition::Interval(next) => {
                    let overlaps = match last_high {
                        None => false,
                        Some(high) => match next.low_openness {
                            Openness::Open => next.low_val.lt(high),
                            Openness::Closed => match last_openness {
                                Openness::Closed => next.low_val.le(high),
                                Openness::Open => next.low_val.lt(high),
                            },
                        },
                    };
                    if overlaps {
                        assert(self@.defect(i as int));
                        return Err(PiecewiseError::OverlappingInterval(*next));
                    }
                    assert(!self@.defect(i as int));
                    last_high = Some(next.high_val);
                    last_openness = next.high_openness;
                },
                CaseCondition::Otherwise => {
                    assert(self@.defect(i as int));
                    return Err(PiecewiseError::MisplacedOtherwise);
                },
            }
            i += 1;
        }
        proof {
            self@.lemma_first_defect_skips(0, n - 1);
        }
        match &self.cases[n - 1].0 {
            CaseCondition::Otherwise => Ok(()),
            CaseCondition::Interval(_) => Err(PiecewiseError::MissingTrailingOtherwise),
        }
    }

    /// Whether, in a function whose cases are in order, no interval ends
    /// lower than the interval of the case before it. Where that holds,
    /// exactly one case applies to each argument.
    pub fn ends_ascend(&self) -> (out: bool)
        requires
            self@.valid(),
        ensures
            out == self@.ends_ascend(),
    {
        let n = self.cases.len();
        let mut i: usize = 1;
        while i < n - 1
            invariant
                n == self.cases.len(),
                n > 0,
                1 <= i,
                self@.valid(),
                forall|j: int| 0 < j < i && j < n - 1 ==> #[trigger] self@.ends_after_previous(j),
            decreases n - i,
        {
            assert(self@.has_interval(i as int));
            assert(self@.has_interval(i - 1));
            let ascends = match (&self.cases[i - 1].0, &self.cases[i].0) {
                (CaseCondition::Interval(prev), CaseCondition::Interval(next)) => {
                    prev.high_val.lt(next.high_val) || (prev.high_val.le(next.high_val) && (
                    match prev.high_openness {
                        Openness::Open => true,
                        Openness::Closed => match next.high_openness {
                            Openness::Closed => true,
                            Openness::Open => false,
                        },
                    }))
                },
                _ => true,
            };
            if !ascends {
                assert(!self@.ends_after_previous(i as int));
                return false;
            }
            i += 1;
        }
        true
    }

    /// Evaluates the function at `arg`: the formula of the first case whose
    /// interval contains `arg`, or that of the last case where none does.
    pub fn eval(&self, arg: T) -> (out: T)
        requires
            self.cases.len() > 0,
        ensures
            out == self@.eval(arg),
    {
        let n = self.cases.len();
        let mut i: usize = 0;
        while i < n - 1
            invariant
                n == self.cases.len(),
                n > 0,
                0 <= i <= n - 1,
                self@.first_match(0, arg) == self@.first_match(i as int, arg),
            decreases n - i,
        {
            if let CaseCondition::Interval(interval) = &self.cases[i].0 {
                if interval.includes(arg) {
                    return self.cases[i].1.eval(arg);
                }
            }
            i += 1;
        }
        self.cases[n - 1].1.eval(arg)
    }
}

} // verus!
