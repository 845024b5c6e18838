//! Answer shuffling: the choices of a question are laid out in a new order
//! and the correct indices follow them.

use crate::permutation::{
    as_ints, check_permutation, is_permutation, lemma_position_of, lemma_reorder_multiset,
    lemma_shuffle_order_permutation, order_from_draws, position_of, random_order, reorder,
    shuffle_order, valid_draws,
};
use crate::grading::marked;
use crate::question::{texts, views, Question, QuestionView};
use vstd::prelude::*;

verus! {

/// Where each index of `answer` lands under the order `p`.
pub open spec fn remap(answer: Seq<int>, p: Seq<int>) -> Seq<int> {
    answer.map_values(|v: int| position_of(p, v))
}

impl QuestionView {
    /// The question with its choices laid out in the order `p`: choice `k`
    /// is the former choice `p[k]`, and every correct index is replaced by
    /// the position to which its choice moved.
    pub open spec fn reordered(self, p: Seq<int>) -> QuestionView {
        QuestionView {
            text: self.text,
            choices: reorder(self.choices, p),
            answer: remap(self.answer, p),
        }
    }
}

/// `q` is `base` with its choices in some order.
pub open spec fn is_shuffle_of(q: QuestionView, base: QuestionView) -> bool {
    exists|p: Seq<int>| #[trigger]
        is_permutation(p, base.choices.len() as int) && q == base.reordered(p)
}

/// Each question of `shuffled` is the question of `base` at its place with
/// its choices in some order.
pub open spec fn are_shuffles_of(shuffled: Seq<QuestionView>, base: Seq<QuestionView>) -> bool {
    &&& shuffled.len() == base.len()
    &&& forall|i: int| 0 <= i < base.len() ==> is_shuffle_of(#[trigger] shuffled[i], base[i])
}

/// `q` is a question of `bank` with its choices in some order.
pub open spec fn is_shuffled_draw(q: QuestionView, bank: Seq<QuestionView>) -> bool {
    exists|k: int| 0 <= k < bank.len() && is_shuffle_of(q, #[trigger] bank[k])
}

/// The draws of row `i` are ones that the shuffle of question `i` accepts.
pub open spec fn valid_draw_rows(draws: Seq<Vec<usize>>, questions: Seq<QuestionView>) -> bool {
    &&& draws.len() == questions.len()
    &&& forall|i: int|
        0 <= i < draws.len() ==> valid_draws(
            as_ints((#[trigger] draws[i])@),
            questions[i].choices.len() as int,
        )
}

/// Reordering the choices of a question is a bijection: no choice string is
/// lost or gained, the question stays well formed, each correct index still
/// points at the string it pointed at before, and a position is correct
/// afterwards exactly when the choice that moved there was correct.
pub proof fn lemma_reordered_bijection(q: QuestionView, p: Seq<int>)
    requires
        q.wf(),
        is_permutation(p, q.choices.len() as int),
    ensures
        q.reordered(p).wf(),
        q.reordered(p).text == q.text,
        q.reordered(p).choices.len() == q.choices.len(),
        q.reordered(p).choices.to_multiset() == q.choices.to_multiset(),
        q.reordered(p).answer.len() == q.answer.len(),
        forall|t: int|
            0 <= t < q.answer.len() ==> q.reordered(p).choices[#[trigger] q.reordered(p).answer[t]]
                == q.choices[q.answer[t]],
        forall|k: int|
            0 <= k < q.choices.len() ==> (q.reordered(p).answer.contains(k) <==> q.answer.contains(
                #[trigger] p[k],
            )),
{
    let n = q.choices.len() as int;
    let r = q.reordered(p);
    lemma_reorder_multiset(q.choices, p);
    assert forall|t: int| 0 <= t < q.answer.len() implies 0 <= #[trigger] r.answer[t] < n
        && p[r.answer[t]] == q.answer[t] by {
        lemma_position_of(p, n, q.answer[t]);
    }
    assert forall|x: int, y: int|
        0 <= x < r.answer.len() && 0 <= y < r.answer.len() && x != y implies r.answer[x]
        != r.answer[y] by {
        assert(p[r.answer[x]] == q.answer[x]);
        assert(p[r.answer[y]] == q.answer[y]);
    }
    assert forall|k: int| 0 <= k < n implies (r.answer.contains(k) <==> q.answer.contains(
        #[trigger] p[k],
    )) by {
        if r.answer.contains(k) {
            let t = choose|t: int| 0 <= t < r.answer.len() && r.answer[t] == k;
            assert(p[r.answer[t]] == q.answer[t]);
        }
        if q.answer.contains(p[k]) {
            let t = choose|t: int| 0 <= t < q.answer.len() && q.answer[t] == p[k];
            lemma_position_of(p, n, q.answer[t]);
            assert(r.answer[t] == k);
        }
    }
}

/// Reordering does not change what counts as the right answer: marks that
/// moved with their choices are exact for the reordered question just when
/// they were exact before, and leave a correct choice unmarked just when
/// they did before.
pub proof fn lemma_reordered_grading(q: QuestionView, p: Seq<int>, marks: Seq<bool>)
    requires
        q.wf(),
        is_permutation(p, q.choices.len() as int),
        marks.len() == q.choices.len(),
    ensures
        q.reordered(p).is_answered_exactly(reorder(marks, p)) <==> q.is_answered_exactly(marks),
        q.reordered(p).misses_correct(reorder(marks, p)) <==> q.misses_correct(marks),
{
    let n = q.choices.len() as int;
    let r = q.reordered(p);
    let moved = reorder(marks, p);
    lemma_reordered_bijection(q, p);
    assert forall|k: int| 0 <= k < n implies (#[trigger] marked(moved, k) <==> marked(marks, p[k])) by {
        assert(0 <= p[k] < n);
    }
    if q.is_answered_exactly(marks) {
        assert forall|k: int| 0 <= k < n implies (#[trigger] marked(moved, k) <==> r.answer.contains(
            k,
        )) by {
            assert(marked(marks, p[k]) <==> q.answer.contains(p[k]));
        }
    }
    if r.is_answered_exactly(moved) {
        assert forall|j: int| 0 <= j < n implies (#[trigger] marked(marks, j) <==> q.answer.contains(
            j,
        )) by {
            lemma_position_of(p, n, j);
            let k = position_of(p, j);
            assert(marked(moved, k) <==> r.answer.contains(k));
        }
    }
    assert forall|t: int| 0 <= t < q.answer.len() implies (marked(moved, #[trigger] r.answer[t])
        <==> marked(marks, q.answer[t])) by {
        lemma_position_of(p, n, q.answer[t]);
    }
    if q.misses_correct(marks) {
        let t = choose|t: int| 0 <= t < q.answer.len() && !marked(marks, #[trigger] q.answer[t]);
        assert(!marked(moved, r.answer[t]));
    }
    if r.misses_correct(moved) {
        let t = choose|t: int| 0 <= t < r.answer.len() && !marked(moved, #[trigger] r.answer[t]);
        assert(!marked(marks, q.answer[t]));
    }
}

impl Question {
    /// A copy of the question with the choices laid out in `order`.
    ///
    /// `order` is accepted when it lists every choice index exactly once.
    /// The question itself is left as it was.
    pub fn reordered(&self, order: &Vec<usize>) -> (r: Option<Question>)
        ensures
            r is Some <==> is_permutation(as_ints(order@), self@.choices.len() as int),
            r matches Some(q) ==> q@ == self@.reordered(as_ints(order@)),
    {
        let old_choices = self.choices();
        let old_answer = self.answer();
        let n = old_choices.len();
        if !check_permutation(order, n) {
            return None;
        }
        let ghost p = as_ints(order@);
        proof {
            use_type_invariant(self);
            lemma_reordered_bijection(self@, p);
        }
        let mut choices: Vec<String> = Vec::new();
        let mut k: usize = 0;
        while k < n
            invariant
                k <= n,
                n == old_choices.len(),
                order.len() == n,
                p == as_ints(order@),
                is_permutation(p, n as int),
                choices.len() == k,
                forall|j: int| 0 <= j < k ==> choices[j]@ == old_choices[p[j]]@,
            decreases n - k,
        {
            assert(0 <= p[k as int] < n);
            choices.push(old_choices[order[k]].clone());
            k += 1;
        }
        let m = old_answer.len();
        let mut answer: Vec<usize> = Vec::new();
        let mut t: usize = 0;
        while t < m
            invariant
                t <= m,
                m == old_answer.len(),
                order.len() == n,
                p == as_ints(order@),
                is_permutation(p, n as int),
                self@.wf(),
                self@.choices.len() == n,
                self@.answer == as_ints(old_answer@),
                answer.len() == t,
                forall|j: int| 0 <= j < t ==> answer[j] == position_of(p, self@.answer[j]),
            decreases m - t,
        {
            let wanted = old_answer[t];
            assert(self@.answer[t as int] == wanted);
            proof {
                lemma_position_of(p, n as int, wanted as int);
            }
            let mut at: usize = 0;
            while order[at] != wanted
                invariant
                    at <= position_of(p, wanted as int) < n,
                    order.len() == n,
                    p == as_ints(order@),
                    p[position_of(p, wanted as int)] == wanted,
                decreases n - at,
            {
                assert(p[at as int] != wanted);
                at += 1;
            }
            assert(p[at as int] == wanted);
            answer.push(at);
            t += 1;
        }
        let ghost want = self@.reordered(p);
        assert(texts(choices@) =~= want.choices);
        assert(as_ints(answer@) =~= want.answer);
        let text = self.text().clone();
        let built = Question::new(text, choices, answer);
        Some(built.unwrap())
    }

    /// A copy of the question with the choices laid out by the exchange
    /// shuffle that `draws` describes. The draws are accepted when there is
    /// one for each choice and the `i`-th lies in `[i, number of choices)`.
    pub fn shuffled_by(&self, draws: &Vec<usize>) -> (r: Option<Question>)
        ensures
            r is Some <==> valid_draws(as_ints(draws@), self@.choices.len() as int),
            r matches Some(q) ==> q@ == self@.reordered(shuffle_order(as_ints(draws@))),
    {
        if draws.len() != self.choices().len() {
            return None;
        }
        match order_from_draws(draws) {
            Some(order) => {
                proof {
                    lemma_shuffle_order_permutation(as_ints(draws@));
                }
                self.reordered(&order)
            },
            None => None,
        }
    }

    /// A copy of the question with its choices in a freshly drawn order.
    ///
    /// Whatever is drawn, the copy is the question reordered by some
    /// permutation of its choices.
    pub fn shuffled(&self) -> (r: Question)
        ensures
            exists|p: Seq<int>|
                is_permutation(p, self@.choices.len() as int) && r@ == self@.reordered(p),
    {
        let order = random_order(self.choices().len());
        let r = self.reordered(&order);
        r.unwrap()
    }
}

/// Copies of `questions`, each with its choices laid out by the exchange
/// shuffle that its row of draws describes. The draws are accepted when
/// there is a row for each question and each row fits its question.
pub fn shuffle_answers_by(questions: &Vec<Question>, draws: &Vec<Vec<usize>>) -> (r: Option<
    Vec<Question>,
>)
    ensures
        r is Some <==> valid_draw_rows(draws@, views(questions@)),
        r matches Some(out) ==> out.len() == questions.len() && forall|i: int|
            0 <= i < out.len() ==> (#[trigger] out[i])@ == questions[i]@.reordered(
                shuffle_order(as_ints(draws[i]@)),
            ),
{
    if draws.len() != questions.len() {
        return None;
    }
    let mut out: Vec<Question> = Vec::new();
    let mut i: usize = 0;
    while i < questions.len()
        invariant
            i <= questions.len(),
            draws.len() == questions.len(),
            out.len() == i,
            forall|k: int|
                0 <= k < i ==> valid_draws(
                    as_ints((#[trigger] draws[k])@),
                    views(questions@)[k].choices.len() as int,
                ),
            forall|k: int|
                0 <= k < i ==> (#[trigger] out[k])@ == questions[k]@.reordered(
                    shuffle_order(as_ints(draws[k]@)),
                ),
        decreases questions.len() - i,
    {
        match questions[i].shuffled_by(&draws[i]) {
            Some(q) => {
                out.push(q);
            },
            None => {
                assert(!valid_draws(
                    as_ints(draws[i as int]@),
                    views(questions@)[i as int].choices.len() as int,
                ));
                return None;
            },
        }
        i += 1;
    }
    Some(out)
}

/// Copies of `questions`, each with its choices in a freshly drawn order of
/// its own.
///
/// Whatever is drawn, each copy is the question at its place reordered by
/// some permutation of its choices.
pub fn shuffle_answers(questions: &Vec<Question>) -> (out: Vec<Question>)
    ensures
        are_shuffles_of(views(out@), views(questions@)),
{
    let mut out: Vec<Question> = Vec::new();
    let mut i: usize = 0;
    while i < questions.len()
        invariant
            i <= questions.len(),
            out.len() == i,
            forall|k: int|
                0 <= k < i ==> is_shuffle_of(#[trigger] views(out@)[k], views(questions@)[k]),
        decreases questions.len() - i,
    {
        let ghost before = views(out@);
        let q = questions[i].shuffled();
        let ghost model = q@;
        out.push(q);
        assert forall|k: int| 0 <= k <= i implies is_shuffle_of(
            #[trigger] views(out@)[k],
            views(questions@)[k],
        ) by {
            if k < i {
                assert(views(out@)[k] == before[k]);
            } else {
                assert(views(out@)[k] == model);
                assert(views(questions@)[k] == questions[k]@);
            }
        }
        i += 1;
    }
    out
}

} // verus!
