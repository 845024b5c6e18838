//! A quiz session: the selected questions, what the user has marked for
//! each, and the score once the answers are revealed.

use crate::grading::{at_most_one_marked, has_at_most_one_mark, marked, no_marks};
use crate::question::{views, Question, QuestionView};
use vstd::prelude::*;

verus! {

/// The marks of each row of `rows`.
pub open spec fn rows_of(rows: Seq<Vec<bool>>) -> Seq<Seq<bool>> {
    rows.map_values(|r: Vec<bool>| r@)
}

/// How many of the first `n` questions are answered exactly.
pub open spec fn count_exact(questions: Seq<QuestionView>, marks: Seq<Seq<bool>>, n: nat) -> nat
    decreases n,
{
    if n == 0 {
        0
    } else {
        count_exact(questions, marks, (n - 1) as nat) + if questions[n - 1].is_answered_exactly(
            marks[n - 1],
        ) {
            1nat
        } else {
            0nat
        }
    }
}

/// Which of the first `n` questions are answered exactly.
pub open spec fn exact_questions(questions: Seq<QuestionView>, marks: Seq<Seq<bool>>, n: nat) -> Set<
    int,
> {
    Set::new(|i: int| 0 <= i < n && questions[i].is_answered_exactly(marks[i]))
}

/// What a session is: its questions, one row of marks for each, and the
/// score once the answers have been revealed.
pub struct SessionView {
    pub questions: Seq<QuestionView>,
    pub marks: Seq<Seq<bool>>,
    pub outcome: Option<nat>,
}

impl SessionView {
    /// Each question has its row of marks, one mark for each choice.
    pub open spec fn shaped(self) -> bool {
        &&& self.marks.len() == self.questions.len()
        &&& forall|i: int|
            #![trigger self.questions[i]]
            #![trigger self.marks[i]]
            0 <= i < self.questions.len() ==> {
                &&& self.questions[i].wf()
                &&& self.marks[i].len() == self.questions[i].choices.len()
                &&& self.questions[i].is_single_select() ==> at_most_one_marked(self.marks[i])
            }
    }

    /// Well formed: shaped, and a revealed score is the number of questions
    /// answered exactly.
    pub open spec fn wf(self) -> bool {
        &&& self.shaped()
        &&& self.outcome matches Some(s) ==> s == self.tally()
    }

    /// The answers have been revealed.
    pub open spec fn revealed(self) -> bool {
        self.outcome is Some
    }

    /// The score: nothing until the answers are revealed.
    pub open spec fn score(self) -> nat {
        match self.outcome {
            Some(s) => s,
            None => 0,
        }
    }

    /// The number of questions answered exactly.
    pub open spec fn tally(self) -> nat {
        count_exact(self.questions, self.marks, self.questions.len())
    }

    /// A session on `questions` in which nothing is marked or revealed.
    pub open spec fn fresh(questions: Seq<QuestionView>) -> SessionView {
        SessionView {
            questions,
            marks: Seq::new(questions.len(), |i: int| no_marks(questions[i].choices.len())),
            outcome: None,
        }
    }

    /// Whether a pick of `choice` for `question` is recorded: the answers
    /// are not revealed and the session has that choice.
    pub open spec fn accepts(self, question: int, choice: int) -> bool {
        &&& !self.revealed()
        &&& 0 <= question < self.questions.len()
        &&& 0 <= choice < self.questions[question].choices.len()
    }

    /// Why a pick that is not accepted is refused.
    pub open spec fn refusal(self, question: int, choice: int) -> RecordError {
        if self.revealed() {
            RecordError::AlreadyRevealed
        } else if !(0 <= question < self.questions.len()) {
            RecordError::NoSuchQuestion
        } else {
            RecordError::NoSuchChoice
        }
    }

    /// The session after `choice` is recorded for `question`.
    pub open spec fn after_record(self, question: int, choice: int) -> SessionView {
        SessionView {
            marks: self.marks.update(
                question,
                self.questions[question].record(self.marks[question], choice),
            ),
            ..self
        }
    }

    /// The session after its answers are revealed.
    pub open spec fn after_reveal(self) -> SessionView {
        SessionView { outcome: Some(self.tally()), ..self }
    }
}

/// Why a choice was not recorded.
#[derive(Clone, Copy, Debug, PartialEq, Eq)]
pub enum RecordError {
    /// No quiz has been started.
    NotStarted,
    /// The answers are revealed; the marks can no longer change.
    AlreadyRevealed,
    /// The session has no question of that index.
    NoSuchQuestion,
    /// The question has no choice of that index.
    NoSuchChoice,
}

/// The count of the questions answered exactly is the size of their set.
pub proof fn lemma_count_exact_is_cardinality(
    questions: Seq<QuestionView>,
    marks: Seq<Seq<bool>>,
    n: nat,
)
    ensures
        exact_questions(questions, marks, n).finite(),
        count_exact(questions, marks, n) == exact_questions(questions, marks, n).len(),
    decreases n,
{
    if n == 0 {
        assert(exact_questions(questions, marks, n) =~= Set::empty());
    } else {
        let before = exact_questions(questions, marks, (n - 1) as nat);
        lemma_count_exact_is_cardinality(questions, marks, (n - 1) as nat);
        if questions[n - 1].is_answered_exactly(marks[n - 1]) {
            assert(exact_questions(questions, marks, n) =~= before.insert(n - 1));
        } else {
            assert(exact_questions(questions, marks, n) =~= before);
        }
    }
}

/// A fresh session on well-formed questions is well formed, and nothing is
/// marked in it.
pub proof fn lemma_fresh_is_wf(questions: Seq<QuestionView>)
    requires
        forall|i: int| 0 <= i < questions.len() ==> (#[trigger] questions[i]).wf(),
    ensures
        SessionView::fresh(questions).wf(),
        !SessionView::fresh(questions).revealed(),
        SessionView::fresh(questions).score() == 0,
        forall|i: int, j: int|
            0 <= i < questions.len() ==> !#[trigger] marked(
                SessionView::fresh(questions).marks[i],
                j,
            ),
{
}

/// Recording a choice keeps the session in shape: every question keeps its
/// row of marks, one mark for each choice, and a single-select question
/// never has more than one choice marked.
pub proof fn lemma_record_keeps_shape(s: SessionView, question: int, choice: int)
    requires
        s.shaped(),
        0 <= question < s.questions.len(),
        0 <= choice < s.questions[question].choices.len(),
    ensures
        s.after_record(question, choice).shaped(),
        s.after_record(question, choice).questions == s.questions,
        s.questions[question].is_single_select() ==> at_most_one_marked(
            s.after_record(question, choice).marks[question],
        ),
{
    let next = s.after_record(question, choice);
    assert forall|i: int| 0 <= i < next.questions.len() implies {
        &&& next.questions[i].wf()
        &&& (#[trigger] next.marks[i]).len() == next.questions[i].choices.len()
        &&& next.questions[i].is_single_select() ==> at_most_one_marked(next.marks[i])
    } by {
        assert(s.questions[i].wf());
        assert(s.marks[i].len() == s.questions[i].choices.len());
    }
}

/// Revealing is idempotent: a second reveal with the marks unchanged gives
/// the same session and the same score, which is the number of questions
/// answered exactly.
pub proof fn lemma_reveal_idempotent(s: SessionView)
    ensures
        s.after_reveal().after_reveal() == s.after_reveal(),
        s.after_reveal().score() == s.tally(),
        s.after_reveal().after_reveal().score() == s.after_reveal().score(),
        s.wf() && s.revealed() ==> s.after_reveal() == s,
        s.shaped() ==> s.after_reveal().wf(),
{
}

/// The score never exceeds the number of questions.
pub proof fn lemma_score_bound(s: SessionView)
    requires
        s.wf(),
    ensures
        s.score() <= s.questions.len(),
        s.tally() <= s.questions.len(),
{
    lemma_count_exact_bound(s.questions, s.marks, s.questions.len());
}

/// One quiz attempt. It owns copies of its questions, so nothing done to a
/// session reaches the bank they were taken from.
#[derive(Debug, PartialEq, Eq)]
pub struct QuizSession {
    questions: Vec<Question>,
    marks: Vec<Vec<bool>>,
    outcome: Option<usize>,
}

impl View for QuizSession {
    type V = SessionView;

    closed spec fn view(&self) -> SessionView {
        SessionView {
            questions: views(self.questions@),
            marks: rows_of(self.marks@),
            outcome: match self.outcome {
                Some(s) => Some(s as nat),
                None => None,
            },
        }
    }
}

/// The number of questions among the first `n` that are answered exactly is
/// at most `n`.
proof fn lemma_count_exact_bound(questions: Seq<QuestionView>, marks: Seq<Seq<bool>>, n: nat)
    ensures
        count_exact(questions, marks, n) <= n,
    decreases n,
{
    if n > 0 {
        lemma_count_exact_bound(questions, marks, (n - 1) as nat);
    }
}

/// Counts the questions that are answered exactly.
fn count_exactly_answered(questions: &Vec<Question>, marks: &Vec<Vec<bool>>) -> (count: usize)
    requires
        marks.len() == questions.len(),
    ensures
        count == count_exact(views(questions@), rows_of(marks@), questions.len() as nat),
{
    let mut count: usize = 0;
    let mut i: usize = 0;
    while i < questions.len()
        invariant
            i <= questions.len(),
            marks.len() == questions.len(),
            count <= i,
            count == count_exact(views(questions@), rows_of(marks@), i as nat),
        decreases questions.len() - i,
    {
        if questions[i].is_answered_exactly(&marks[i]) {
            count += 1;
        }
        i += 1;
    }
    count
}

impl QuizSession {
    /// Holds of every session that exists: its model is well formed.
    #[verifier::type_invariant]
    pub open spec fn well_formed(self) -> bool {
        self@.wf()
    }

    /// Starts a session on `questions`: nothing is marked, nothing revealed,
    /// and the score is zero.
    pub fn begin(questions: Vec<Question>) -> (s: QuizSession)
        ensures
            s@ == SessionView::fresh(views(questions@)),
    {
        let mut marks: Vec<Vec<bool>> = Vec::new();
        let mut i: usize = 0;
        while i < questions.len()
            invariant
                i <= questions.len(),
                marks.len() == i,
                forall|k: int|
                    0 <= k < i ==> (#[trigger] marks[k])@ == no_marks(
                        views(questions@)[k].choices.len(),
                    ),
                forall|k: int| 0 <= k < i ==> (#[trigger] views(questions@)[k]).wf(),
            decreases questions.len() - i,
        {
            let q = &questions[i];
            proof {
                use_type_invariant(q);
            }
            let width = q.choices().len();
            let mut row: Vec<bool> = Vec::new();
            let mut j: usize = 0;
            while j < width
                invariant
                    j <= width,
                    row.len() == j,
                    forall|k: int| 0 <= k < j ==> !row[k],
                decreases width - j,
            {
                row.push(false);
                j += 1;
            }
            assert(row@ =~= no_marks(q@.choices.len()));
            marks.push(row);
            i += 1;
        }
        let ghost want = SessionView::fresh(views(questions@));
        assert(rows_of(marks@) =~= want.marks);
        proof {
            lemma_fresh_is_wf(want.questions);
        }
        QuizSession { questions, marks, outcome: None }
    }

    /// Rebuilds a session from what an earlier one held: its questions, its
    /// rows of marks, and whether the answers were revealed.
    ///
    /// The parts are accepted when there is a row for each question with a
    /// mark for each choice, and no single-select question has more than one
    /// choice marked. The score is counted anew from the marks.
    #[verifier::loop_isolation(false)]
    pub fn restore(questions: Vec<Question>, marks: Vec<Vec<bool>>, revealed: bool) -> (r: Option<
        QuizSession,
    >)
        ensures
            r is Some <==> (SessionView {
                questions: views(questions@),
                marks: rows_of(marks@),
                outcome: None,
            }).shaped(),
            r matches Some(s) ==> {
                &&& s@.questions == views(questions@)
                &&& s@.marks == rows_of(marks@)
                &&& s@.revealed() == revealed
                &&& s@.score() == if revealed {
                    s@.tally()
                } else {
                    0
                }
            },
    {
        let ghost want = SessionView {
            questions: views(questions@),
            marks: rows_of(marks@),
            outcome: None,
        };
        if marks.len() != questions.len() {
            return None;
        }
        let mut i: usize = 0;
        while i < questions.len()
            invariant
                i <= questions.len(),
                forall|k: int|
                    #![trigger want.questions[k]]
                    #![trigger want.marks[k]]
                    0 <= k < i ==> {
                        &&& want.questions[k].wf()
                        &&& want.marks[k].len() == want.questions[k].choices.len()
                        &&& want.questions[k].is_single_select() ==> at_most_one_marked(
                            want.marks[k],
                        )
                    },
            decreases questions.len() - i,
        {
            let q = &questions[i];
            proof {
                use_type_invariant(q);
            }
            assert(want.questions[i as int] == q@);
            assert(want.marks[i as int] == marks[i as int]@);
            if marks[i].len() != q.choices().len() {
                return None;
            }
            if q.is_single_select() && !has_at_most_one_mark(&marks[i]) {
                return None;
            }
            i += 1;
        }
        assert(want.shaped());
        let outcome = if revealed {
            Some(count_exactly_answered(&questions, &marks))
        } else {
            None
        };
        Some(QuizSession { questions, marks, outcome })
    }

    /// The questions of the session, in order.
    pub fn questions(&self) -> (r: &Vec<Question>)
        ensures
            views(r@) == self@.questions,
    {
        &self.questions
    }

    /// The marks: one row for each question, one mark for each choice.
    pub fn marks(&self) -> (r: &Vec<Vec<bool>>)
        ensures
            rows_of(r@) == self@.marks,
    {
        &self.marks
    }

    /// Whether the answers have been revealed.
    pub fn is_revealed(&self) -> (b: bool)
        ensures
            b == self@.revealed(),
    {
        self.outcome.is_some()
    }

    /// The score: zero until the answers are revealed, then the number of
    /// questions answered exactly.
    pub fn score(&self) -> (score: usize)
        ensures
            score == self@.score(),
            score <= self@.questions.len(),
    {
        proof {
            use_type_invariant(self);
            lemma_score_bound(self@);
        }
        match self.outcome {
            Some(s) => s,
            None => 0,
        }
    }

    /// Whether `question` is to be shown as wrong: the answers are revealed
    /// and one of its correct choices is unmarked. A question whose correct
    /// choices are all marked is not flagged, whatever else is marked.
    pub fn is_flagged_wrong(&self, question: usize) -> (b: bool)
        ensures
            b <==> self@.revealed() && question < self@.questions.len()
                && self@.questions[question as int].misses_correct(
                self@.marks[question as int],
            ),
    {
        proof {
            use_type_invariant(self);
        }
        if self.outcome.is_none() || question >= self.questions.len() {
            return false;
        }
        self.questions[question].misses_correct(&self.marks[question])
    }

    /// Records that the user picked `choice` of `question`.
    ///
    /// On a single-select question the pick replaces whatever was marked
    /// before, so that at most one choice is ever marked. On any other
    /// question the pick switches that one choice on or off. Once the
    /// answers are revealed nothing is recorded any more.
    pub fn record_choice(&mut self, question: usize, choice: usize) -> (r: Result<
        (),
        RecordError,
    >)
        ensures
            r is Ok <==> old(self)@.accepts(question as int, choice as int),
            r matches Err(e) ==> e == old(self)@.refusal(question as int, choice as int) && final(self)@ == old(self)@,
            r is Ok ==> final(self)@ == old(self)@.after_record(question as int, choice as int),
    {
        proof {
            use_type_invariant(&*self);
        }
        if self.outcome.is_some() {
            return Err(RecordError::AlreadyRevealed);
        }
        if question >= self.questions.len() {
            return Err(RecordError::NoSuchQuestion);
        }
        let width = self.marks[question].len();
        if choice >= width {
            return Err(RecordError::NoSuchChoice);
        }
        let single = self.questions[question].is_single_select();
        let ghost model = self@.questions[question as int];
        let ghost was = self@.marks[question as int];
        let mut row: Vec<bool> = Vec::new();
        let mut j: usize = 0;
        while j < width
            invariant
                j <= width,
                question < self.marks.len(),
                width == self.marks[question as int].len(),
                was == self.marks[question as int]@,
                choice < width,
                single == model.is_single_select(),
                row.len() == j,
                forall|k: int| 0 <= k < j ==> row[k] == model.record(was, choice as int)[k],
            decreases width - j,
        {
            let now = if single {
                j == choice
            } else if j == choice {
                !self.marks[question][j]
            } else {
                self.marks[question][j]
            };
            row.push(now);
            j += 1;
        }
        assert(row@ =~= model.record(was, choice as int));
        let ghost want = old(self)@.after_record(question as int, choice as int);
        let mut taken = QuizSession::begin(Vec::new());
        std::mem::swap(self, &mut taken);
        let QuizSession { questions, mut marks, outcome } = taken;
        marks.set(question, row);
        assert(rows_of(marks@) =~= want.marks);
        proof {
            lemma_record_keeps_shape(old(self)@, question as int, choice as int);
        }
        *self = QuizSession { questions, marks, outcome };
        Ok(())
    }

    /// Reveals the answers: the score becomes the number of questions whose
    /// marked choices are exactly the correct ones, and the marks are
    /// frozen. Revealing again changes nothing.
    pub fn reveal_answers(&mut self) -> (score: usize)
        ensures
            final(self)@ == old(self)@.after_reveal(),
            score == final(self)@.score(),
    {
        proof {
            use_type_invariant(&*self);
        }
        let score = count_exactly_answered(&self.questions, &self.marks);
        self.outcome = Some(score);
        score
    }
}

} // verus!
