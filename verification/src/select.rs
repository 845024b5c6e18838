//! Question selection: a contiguous range of the bank in bank order, or
//! independent draws from it with replacement.

use crate::permutation::{as_ints, reorder};
use crate::question::{views, Question, QuestionView};
use crate::random::draw_below;
use vstd::prelude::*;

verus! {

/// How a quiz run picks its questions.
#[derive(Clone, Copy, Debug, PartialEq, Eq)]
pub struct QuizConfig {
    /// Draw the questions at random instead of taking a range.
    pub randomized_question: bool,
    /// Shuffle the choices of each selected question.
    pub randomized_answers: bool,
    /// How many questions to draw.
    pub question_amount: i32,
    /// First index of the range.
    pub from_question: i32,
    /// Index after the last of the range.
    pub to_question: i32,
}

/// The configuration that a new engine starts with: a quiz on the range
/// `[1, 1100)`, nothing randomized, and twenty questions to draw.
pub open spec fn default_config() -> QuizConfig {
    QuizConfig {
        randomized_question: false,
        randomized_answers: false,
        question_amount: 20,
        from_question: 1,
        to_question: 1100,
    }
}

impl Default for QuizConfig {
    fn default() -> (c: QuizConfig)
        ensures
            c == default_config(),
    {
        QuizConfig {
            randomized_question: false,
            randomized_answers: false,
            question_amount: 20,
            from_question: 1,
            to_question: 1100,
        }
    }
}

/// A range that reaches outside a bank of `len` questions.
#[derive(Clone, Copy, Debug, PartialEq, Eq)]
pub struct RangeError {
    pub from: i32,
    pub to: i32,
    pub len: usize,
}

/// Why no questions were selected.
#[derive(Clone, Copy, Debug, PartialEq, Eq)]
pub enum SelectError {
    /// The configured range reaches outside the bank.
    Range(RangeError),
    /// Questions were to be drawn from an empty bank.
    EmptyBank,
}

/// No index of `[from, to)` lies outside `[0, len)`.
pub open spec fn range_in_bounds(len: int, from: int, to: int) -> bool {
    from < to ==> 0 <= from && to <= len
}

/// The questions at `[from, to)`, in bank order; none when the range is
/// empty.
pub open spec fn range_selection(bank: Seq<QuestionView>, from: int, to: int) -> Seq<
    QuestionView,
> {
    if from < to {
        bank.subrange(from, to)
    } else {
        Seq::empty()
    }
}

/// The refusal of a range on a bank of `len` questions.
pub open spec fn range_refusal(from: i32, to: i32, len: usize) -> SelectError {
    SelectError::Range(RangeError { from, to, len })
}

/// How many questions a request for `count` draws gives: none where the
/// count is zero or less.
pub open spec fn draw_count(count: i32) -> nat {
    if count > 0 {
        count as nat
    } else {
        0
    }
}

/// Every question of `selected` is a question of `bank`.
pub open spec fn drawn_from(selected: Seq<QuestionView>, bank: Seq<QuestionView>) -> bool {
    forall|i: int| 0 <= i < selected.len() ==> bank.contains(#[trigger] selected[i])
}

/// Copies the questions at `[from, to)` out of the bank, in bank order.
///
/// An empty range (`from >= to`) selects nothing. A range that holds an
/// index outside the bank is refused.
pub fn select_range(bank: &Vec<Question>, from: i32, to: i32) -> (r: Result<
    Vec<Question>,
    RangeError,
>)
    ensures
        r is Ok <==> range_in_bounds(bank.len() as int, from as int, to as int),
        r matches Ok(sel) ==> views(sel@) == range_selection(views(bank@), from as int, to as int),
        r matches Err(e) ==> e == (RangeError { from, to, len: bank.len() }),
{
    let mut sel: Vec<Question> = Vec::new();
    if from >= to {
        assert(views(sel@) =~= Seq::<QuestionView>::empty());
        return Ok(sel);
    }
    if from < 0 || to as usize > bank.len() {
        return Err(RangeError { from, to, len: bank.len() });
    }
    let first = from as usize;
    let end = to as usize;
    let mut i: usize = first;
    while i < end
        invariant
            first <= i <= end <= bank.len(),
            sel.len() == i - first,
            forall|k: int| 0 <= k < sel.len() ==> sel[k]@ == bank[first + k]@,
        decreases end - i,
    {
        sel.push(bank[i].clone());
        i += 1;
    }
    assert(views(sel@) =~= views(bank@).subrange(from as int, to as int));
    Ok(sel)
}

/// Copies the questions that `draws` names out of the bank, one for each
/// draw and in the order of the draws. A question may be named more than
/// once. The draws are accepted when each is an index into the bank.
pub fn select_by_draws(bank: &Vec<Question>, draws: &Vec<usize>) -> (r: Option<Vec<Question>>)
    ensures
        r is Some <==> forall|i: int| 0 <= i < draws.len() ==> draws[i] < bank.len(),
        r matches Some(sel) ==> views(sel@) == reorder(views(bank@), as_ints(draws@)),
{
    let mut sel: Vec<Question> = Vec::new();
    let mut i: usize = 0;
    while i < draws.len()
        invariant
            i <= draws.len(),
            sel.len() == i,
            forall|k: int| 0 <= k < i ==> draws[k] < bank.len(),
            forall|k: int| 0 <= k < i ==> sel[k]@ == bank[draws[k] as int]@,
        decreases draws.len() - i,
    {
        if draws[i] >= bank.len() {
            return None;
        }
        sel.push(bank[draws[i]].clone());
        i += 1;
    }
    assert(views(sel@) =~= reorder(views(bank@), as_ints(draws@)));
    Some(sel)
}

/// Draws `count` questions from the bank, each uniformly and independently
/// of the others, so that a question may come more than once.
///
/// A count of zero or less selects nothing. Drawing from an empty bank is
/// refused. Whatever is drawn, each question selected is a copy of one in
/// the bank.
pub fn select_random(bank: &Vec<Question>, count: i32) -> (r: Result<Vec<Question>, SelectError>)
    ensures
        r is Ok <==> (count <= 0 || bank.len() > 0),
        r matches Err(e) ==> e == SelectError::EmptyBank,
        r matches Ok(sel) ==> sel.len() == draw_count(count) && drawn_from(
            views(sel@),
            views(bank@),
        ),
{
    if count <= 0 {
        return Ok(Vec::new());
    }
    if bank.len() == 0 {
        return Err(SelectError::EmptyBank);
    }
    let wanted = count as usize;
    let mut draws: Vec<usize> = Vec::new();
    let mut i: usize = 0;
    while i < wanted
        invariant
            i <= wanted,
            bank.len() > 0,
            draws.len() == i,
            forall|k: int| 0 <= k < i ==> draws[k] < bank.len(),
        decreases wanted - i,
    {
        let at = draw_below(bank.len());
        draws.push(at);
        i += 1;
    }
    let sel = select_by_draws(bank, &draws).unwrap();
    assert(views(sel@).len() == wanted);
    assert forall|k: int| 0 <= k < sel.len() implies views(bank@).contains(
        #[trigger] views(sel@)[k],
    ) by {
        assert(0 <= as_ints(draws@)[k] < bank.len());
        assert(views(sel@)[k] == views(bank@)[as_ints(draws@)[k]]);
    }
    Ok(sel)
}

/// Selects the questions of a quiz run: the configured range where the
/// questions are not randomized, and `question_amount` draws otherwise.
/// The questions come as they stand in the bank.
pub fn select_questions(bank: &Vec<Question>, config: &QuizConfig) -> (r: Result<
    Vec<Question>,
    SelectError,
>)
    ensures
        !config.randomized_question ==> {
            &&& r is Ok <==> range_in_bounds(
                bank.len() as int,
                config.from_question as int,
                config.to_question as int,
            )
            &&& r matches Ok(sel) ==> views(sel@) == range_selection(
                views(bank@),
                config.from_question as int,
                config.to_question as int,
            )
            &&& r matches Err(e) ==> e == range_refusal(
                config.from_question,
                config.to_question,
                bank.len(),
            )
        },
        config.randomized_question ==> {
            &&& r is Ok <==> (config.question_amount <= 0 || bank.len() > 0)
            &&& r matches Err(e) ==> e == SelectError::EmptyBank
            &&& r matches Ok(sel) ==> sel.len() == draw_count(config.question_amount)
                && drawn_from(views(sel@), views(bank@))
        },
{
    if config.randomized_question {
        select_random(bank, config.question_amount)
    } else {
        match select_range(bank, config.from_question, config.to_question) {
            Ok(sel) => Ok(sel),
            Err(e) => Err(SelectError::Range(e)),
        }
    }
}

} // verus!
