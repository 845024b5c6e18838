//! A multiple-choice question and its mathematical model.

use crate::permutation::as_ints;
use vstd::prelude::*;

verus! {

/// The text of each string of `s`.
pub open spec fn texts(s: Seq<String>) -> Seq<Seq<char>> {
    s.map_values(|t: String| t@)
}

/// What a question is: its text, its choices in display order, and the
/// indices of the correct choices.
pub struct QuestionView {
    pub text: Seq<char>,
    pub choices: Seq<Seq<char>>,
    pub answer: Seq<int>,
}

impl QuestionView {
    /// Every correct index names a choice.
    pub open spec fn answer_in_range(self) -> bool {
        forall|t: int| 0 <= t < self.answer.len() ==> 0 <= #[trigger] self.answer[t] < self.choices.len()
    }

    /// The correct indices form a set of indices into the choices.
    pub open spec fn wf(self) -> bool {
        &&& self.answer_in_range()
        &&& self.answer.no_duplicates()
    }

    /// Exactly one choice is correct.
    pub open spec fn is_single_select(self) -> bool {
        self.answer.len() == 1
    }

    /// The first `m` correct choices, in the order in which the answer lists
    /// them, with a separator between any two.
    pub open spec fn answer_text_upto(self, m: nat) -> Seq<char>
        decreases m,
    {
        if m == 0 {
            Seq::empty()
        } else if m == 1 {
            self.choices[self.answer[0]]
        } else {
            self.answer_text_upto((m - 1) as nat) + separator() + self.choices[self.answer[m - 1]]
        }
    }

    /// The correct choices as one line of text.
    pub open spec fn answer_text(self) -> Seq<char> {
        self.answer_text_upto(self.answer.len())
    }
}

/// What stands between two choices in a line of text: a comma and a space.
pub open spec fn separator() -> Seq<char> {
    seq![',', ' ']
}

/// The model of the question made of these parts.
pub open spec fn model_of(question: String, choices: Vec<String>, answer: Vec<usize>) -> QuestionView {
    QuestionView { text: question@, choices: texts(choices@), answer: as_ints(answer@) }
}

/// The models of the questions of `s`, in order.
pub open spec fn views(s: Seq<Question>) -> Seq<QuestionView> {
    s.map_values(|q: Question| q@)
}

/// Why a question was not accepted.
#[derive(Clone, Copy, Debug, PartialEq, Eq)]
pub enum QuestionError {
    /// A correct index does not name a choice.
    AnswerOutOfRange,
    /// A correct index is listed twice.
    DuplicateAnswer,
}

/// A question, immutable once built.
#[derive(Debug, PartialEq, Eq)]
pub struct Question {
    question: String,
    choices: Vec<String>,
    answer: Vec<usize>,
}

impl View for Question {
    type V = QuestionView;

    closed spec fn view(&self) -> QuestionView {
        model_of(self.question, self.choices, self.answer)
    }
}

impl Clone for Question {
    fn clone(&self) -> (r: Self)
        ensures
            r@ == self@,
    {
        proof {
            use_type_invariant(self);
        }
        let mut choices: Vec<String> = Vec::new();
        let mut i: usize = 0;
        while i < self.choices.len()
            invariant
                i <= self.choices.len(),
                choices.len() == i,
                forall|k: int| 0 <= k < i ==> choices[k]@ == self.choices[k]@,
            decreases self.choices.len() - i,
        {
            choices.push(self.choices[i].clone());
            i += 1;
        }
        let mut answer: Vec<usize> = Vec::new();
        let mut t: usize = 0;
        while t < self.answer.len()
            invariant
                t <= self.answer.len(),
                answer.len() == t,
                forall|k: int| 0 <= k < t ==> answer[k] == self.answer[k],
            decreases self.answer.len() - t,
        {
            answer.push(self.answer[t]);
            t += 1;
        }
        assert(texts(choices@) =~= texts(self.choices@));
        assert(as_ints(answer@) =~= as_ints(self.answer@));
        Question { question: self.question.clone(), choices, answer }
    }
}

impl Question {
    /// Holds of every question that exists: its model is well formed.
    #[verifier::type_invariant]
    pub open spec fn well_formed(self) -> bool {
        self@.wf()
    }

    /// Builds a question. It is accepted when every index of `answer` names
    /// one of `choices` and none is listed twice; an index that names no
    /// choice is reported before one that is listed twice.
    #[verifier::loop_isolation(false)]
    pub fn new(question: String, choices: Vec<String>, answer: Vec<usize>) -> (r: Result<
        Question,
        QuestionError,
    >)
        ensures
            r is Ok <==> model_of(question, choices, answer).wf(),
            r matches Ok(q) ==> q@ == model_of(question, choices, answer),
            r matches Err(e) ==> e == if model_of(question, choices, answer).answer_in_range() {
                QuestionError::DuplicateAnswer
            } else {
                QuestionError::AnswerOutOfRange
            },
    {
        let ghost v = model_of(question, choices, answer);
        let n = choices.len();
        let m = answer.len();
        let mut t: usize = 0;
        while t < m
            invariant
                t <= m,
                forall|k: int| 0 <= k < t ==> answer[k] < n,
            decreases m - t,
        {
            if answer[t] >= n {
                assert(!(0 <= v.answer[t as int] < v.choices.len()));
                return Err(QuestionError::AnswerOutOfRange);
            }
            t += 1;
        }
        assert(v.answer_in_range());
        let mut b: usize = 0;
        while b < m
            invariant
                b <= m,
                forall|x: int, y: int| 0 <= x < y < b ==> answer[x] != answer[y],
            decreases m - b,
        {
            let mut a: usize = 0;
            while a < b
                invariant
                    a <= b,
                    forall|x: int| 0 <= x < a ==> answer[x] != answer[b as int],
                decreases b - a,
            {
                if answer[a] == answer[b] {
                    assert(v.answer[a as int] == v.answer[b as int]);
                    return Err(QuestionError::DuplicateAnswer);
                }
                a += 1;
            }
            b += 1;
        }
        assert(v.answer.no_duplicates()) by {
            assert forall|x: int, y: int|
                0 <= x < v.answer.len() && 0 <= y < v.answer.len() && x != y implies v.answer[x]
                != v.answer[y] by {
                if x < y {
                    assert(answer[x] != answer[y]);
                } else {
                    assert(answer[y] != answer[x]);
                }
            }
        }
        Ok(Question { question, choices, answer })
    }

    /// The question's text.
    pub fn text(&self) -> (r: &String)
        ensures
            r@ == self@.text,
    {
        &self.question
    }

    /// The choices, in display order.
    pub fn choices(&self) -> (r: &Vec<String>)
        ensures
            texts(r@) == self@.choices,
    {
        &self.choices
    }

    /// The indices of the correct choices.
    pub fn answer(&self) -> (r: &Vec<usize>)
        ensures
            as_ints(r@) == self@.answer,
    {
        &self.answer
    }

    /// The correct choices as one line of text: each choice that the answer
    /// lists, in that order, with `", "` between any two.
    pub fn answer_text(&self) -> (r: String)
        ensures
            r@ == self@.answer_text(),
    {
        proof {
            use_type_invariant(self);
            reveal_strlit(", ");
        }
        assert(", "@ =~= separator());
        let mut text = String::new();
        let mut t: usize = 0;
        while t < self.answer.len()
            invariant
                t <= self.answer.len(),
                self@.wf(),
                ", "@ == separator(),
                text@ == self@.answer_text_upto(t as nat),
            decreases self.answer.len() - t,
        {
            assert(0 <= self@.answer[t as int] < self@.choices.len());
            assert(self@.choices[self@.answer[t as int]] == self.choices[self.answer[t as int] as int]@);
            if t > 0 {
                text.append(", ");
            }
            text.append(self.choices[self.answer[t]].as_str());
            assert(text@ =~= self@.answer_text_upto((t + 1) as nat));
            t += 1;
        }
        text
    }

    /// Whether exactly one choice is correct.
    pub fn is_single_select(&self) -> (b: bool)
        ensures
            b == self@.is_single_select(),
    {
        self.answer.len() == 1
    }
}

} // verus!
