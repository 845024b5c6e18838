//! Grading: what the user has marked on a question, and the two ways in
//! which marks are held against the correct choices.

use crate::question::{Question, QuestionView};
use vstd::prelude::*;

verus! {

/// Whether choice `j` is marked. A choice for which `marks` holds nothing
/// counts as unmarked.
pub open spec fn marked(marks: Seq<bool>, j: int) -> bool {
    0 <= j < marks.len() && marks[j]
}

/// At most one choice is marked.
pub open spec fn at_most_one_marked(marks: Seq<bool>) -> bool {
    forall|a: int, b: int| marked(marks, a) && marked(marks, b) ==> a == b
}

/// Marks for `width` choices, none of them set.
pub open spec fn no_marks(width: nat) -> Seq<bool> {
    Seq::new(width, |j: int| false)
}

/// Marks for `width` choices with `choice` alone set.
pub open spec fn only_mark(width: nat, choice: int) -> Seq<bool> {
    Seq::new(width, |j: int| j == choice)
}

impl QuestionView {
    /// The marked choices are exactly the correct ones: every correct
    /// choice is marked and no other is.
    pub open spec fn is_answered_exactly(self, marks: Seq<bool>) -> bool {
        forall|j: int|
            0 <= j < self.choices.len() ==> (#[trigger] marked(marks, j) <==> self.answer.contains(
                j,
            ))
    }

    /// Some correct choice is left unmarked. Marks on other choices play no
    /// part in this.
    pub open spec fn misses_correct(self, marks: Seq<bool>) -> bool {
        exists|t: int| 0 <= t < self.answer.len() && !marked(marks, #[trigger] self.answer[t])
    }

    /// Some choice that is not correct is marked.
    pub open spec fn marks_incorrect(self, marks: Seq<bool>) -> bool {
        exists|j: int|
            0 <= j < self.choices.len() && #[trigger] marked(marks, j) && !self.answer.contains(j)
    }

    /// The marks after `choice` is recorded: on a single-select question it
    /// replaces whatever was marked, on any other it is switched on or off
    /// by itself.
    pub open spec fn record(self, marks: Seq<bool>, choice: int) -> Seq<bool> {
        if self.is_single_select() {
            only_mark(marks.len(), choice)
        } else {
            marks.update(choice, !marks[choice])
        }
    }
}

impl Question {
    /// Whether the marked choices are exactly the correct ones. This is what
    /// the score counts.
    #[verifier::loop_isolation(false)]
    pub fn is_answered_exactly(&self, marks: &Vec<bool>) -> (b: bool)
        ensures
            b == self@.is_answered_exactly(marks@),
    {
        let answer = self.answer();
        let n = self.choices().len();
        let mut j: usize = 0;
        while j < n
            invariant
                j <= n,
                forall|k: int|
                    0 <= k < j ==> (#[trigger] marked(marks@, k) <==> self@.answer.contains(k)),
            decreases n - j,
        {
            let mut correct = false;
            let mut t: usize = 0;
            while t < answer.len()
                invariant
                    t <= answer.len(),
                    correct <==> exists|s: int| 0 <= s < t && self@.answer[s] == j,
                decreases answer.len() - t,
            {
                assert(self@.answer[t as int] == answer[t as int]);
                if answer[t] == j {
                    correct = true;
                }
                t += 1;
            }
            let is_marked = j < marks.len() && marks[j];
            if is_marked != correct {
                assert(marked(marks@, j as int) != self@.answer.contains(j as int));
                return false;
            }
            j += 1;
        }
        true
    }

    /// Whether some correct choice is left unmarked. This is what flags a
    /// question as wrong once the answers are shown; it does not look at
    /// marks on incorrect choices.
    #[verifier::loop_isolation(false)]
    pub fn misses_correct(&self, marks: &Vec<bool>) -> (b: bool)
        ensures
            b == self@.misses_correct(marks@),
    {
        let answer = self.answer();
        let mut t: usize = 0;
        while t < answer.len()
            invariant
                t <= answer.len(),
                forall|s: int| 0 <= s < t ==> marked(marks@, #[trigger] self@.answer[s]),
            decreases answer.len() - t,
        {
            let j = answer[t];
            if !(j < marks.len() && marks[j]) {
                assert(!marked(marks@, self@.answer[t as int]));
                return true;
            }
            t += 1;
        }
        false
    }
}

/// How the two checks differ: an answer is exact when no correct choice is
/// left unmarked and no incorrect choice is marked; the flag looks at the
/// first half alone. So an exact answer is never flagged, while an answer
/// that marks every correct choice and an incorrect one besides is neither
/// exact nor flagged.
pub proof fn lemma_exact_and_flag(q: QuestionView, marks: Seq<bool>)
    requires
        q.wf(),
    ensures
        q.is_answered_exactly(marks) <==> !q.misses_correct(marks) && !q.marks_incorrect(marks),
        q.is_answered_exactly(marks) ==> !q.misses_correct(marks),
{
    if q.is_answered_exactly(marks) {
        assert forall|t: int| 0 <= t < q.answer.len() implies marked(
            marks,
            #[trigger] q.answer[t],
        ) by {
            assert(q.answer.contains(q.answer[t]));
        }
    }
    if !q.misses_correct(marks) && !q.marks_incorrect(marks) {
        assert forall|j: int| 0 <= j < q.choices.len() implies (#[trigger] marked(marks, j)
            <==> q.answer.contains(j)) by {
            if q.answer.contains(j) {
                let t = choose|t: int| 0 <= t < q.answer.len() && q.answer[t] == j;
                assert(marked(marks, q.answer[t]));
            }
        }
    }
}

/// Tells whether at most one choice is marked.
#[verifier::loop_isolation(false)]
pub fn has_at_most_one_mark(row: &Vec<bool>) -> (b: bool)
    ensures
        b == at_most_one_marked(row@),
{
    let mut found: Option<usize> = None;
    let mut j: usize = 0;
    while j < row.len()
        invariant
            j <= row.len(),
            found matches Some(f) ==> f < j && row[f as int] && forall|k: int|
                0 <= k < j && row[k] ==> k == f,
            found is None ==> forall|k: int| 0 <= k < j ==> !row[k],
        decreases row.len() - j,
    {
        if row[j] {
            match found {
                Some(f) => {
                    assert(marked(row@, f as int) && marked(row@, j as int));
                    return false;
                },
                None => {
                    found = Some(j);
                },
            }
        }
        j += 1;
    }
    true
}

} // verus!
