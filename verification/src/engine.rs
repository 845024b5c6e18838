//! The quiz engine: the configuration of the next run, the question bank of
//! the current subject pack, and the session in progress, if any. Each user
//! event is one method.

use crate::question::{views, Question, QuestionView};
use crate::select::{
    default_config, draw_count, drawn_from, range_in_bounds, range_refusal, range_selection,
    select_questions, QuizConfig, SelectError,
};
use crate::session::{QuizSession, RecordError, SessionView};
use crate::shuffle::{are_shuffles_of, is_shuffle_of, is_shuffled_draw, shuffle_answers};
use vstd::prelude::*;

verus! {

/// Where a quiz stands.
#[derive(Clone, Copy, Debug, PartialEq, Eq)]
pub enum Phase {
    /// No quiz has been started.
    NotStarted,
    /// A quiz is being answered.
    InProgress,
    /// The answers of the quiz have been revealed.
    Revealed,
}

/// What the engine holds.
pub struct EngineView {
    pub config: QuizConfig,
    pub bank: Seq<QuestionView>,
    pub pack: i32,
    pub session: Option<SessionView>,
}

impl EngineView {
    /// Where the quiz stands.
    pub open spec fn phase(self) -> Phase {
        match self.session {
            None => Phase::NotStarted,
            Some(s) => if s.revealed() {
                Phase::Revealed
            } else {
                Phase::InProgress
            },
        }
    }

    /// Whether a quiz can be started: the configured range lies in the bank,
    /// or there is something to draw from.
    pub open spec fn can_start(self) -> bool {
        if self.config.randomized_question {
            self.config.question_amount <= 0 || self.bank.len() > 0
        } else {
            range_in_bounds(
                self.bank.len() as int,
                self.config.from_question as int,
                self.config.to_question as int,
            )
        }
    }

    /// Why a quiz that cannot be started is refused.
    pub open spec fn refusal(self) -> SelectError {
        if self.config.randomized_question {
            SelectError::EmptyBank
        } else {
            range_refusal(
                self.config.from_question,
                self.config.to_question,
                self.bank.len() as usize,
            )
        }
    }

    /// Whether `base` is a selection that the configuration allows: the
    /// configured range as it stands in the bank, or `question_amount`
    /// questions of the bank.
    pub open spec fn selects(self, base: Seq<QuestionView>) -> bool {
        if self.config.randomized_question {
            base.len() == draw_count(self.config.question_amount) && drawn_from(base, self.bank)
        } else {
            base == range_selection(
                self.bank,
                self.config.from_question as int,
                self.config.to_question as int,
            )
        }
    }

    /// Whether `questions` is how the configuration presents the selection
    /// `base`: as it is, or each question with its choices in some order
    /// where the answers are randomized.
    pub open spec fn presents(self, base: Seq<QuestionView>, questions: Seq<QuestionView>) -> bool {
        if self.config.randomized_answers {
            are_shuffles_of(questions, base)
        } else {
            questions == base
        }
    }

    /// Whether a quiz on `questions` is one that the configuration allows.
    pub open spec fn allows(self, questions: Seq<QuestionView>) -> bool {
        exists|base: Seq<QuestionView>| #[trigger]
            self.selects(base) && self.presents(base, questions)
    }
}

/// What the configuration allows, case by case: without any randomizing the
/// quiz is the configured range exactly as it stands in the bank, in bank
/// order; with randomized answers each question of that range comes with
/// its choices in some order; with randomized questions there are
/// `question_amount` of them, each a question of the bank, with its choices
/// in some order where the answers are randomized too.
pub proof fn lemma_allowed_quiz(e: EngineView, questions: Seq<QuestionView>)
    requires
        e.allows(questions),
    ensures
        !e.config.randomized_question && !e.config.randomized_answers ==> questions
            == range_selection(
            e.bank,
            e.config.from_question as int,
            e.config.to_question as int,
        ),
        !e.config.randomized_question && e.config.randomized_answers ==> are_shuffles_of(
            questions,
            range_selection(e.bank, e.config.from_question as int, e.config.to_question as int),
        ),
        e.config.randomized_question ==> questions.len() == draw_count(e.config.question_amount),
        e.config.randomized_question && !e.config.randomized_answers ==> drawn_from(
            questions,
            e.bank,
        ),
        e.config.randomized_question && e.config.randomized_answers ==> forall|i: int|
            0 <= i < questions.len() ==> is_shuffled_draw(#[trigger] questions[i], e.bank),
{
    if e.config.randomized_question && e.config.randomized_answers {
        let base = choose|base: Seq<QuestionView>| #[trigger]
            e.selects(base) && e.presents(base, questions);
        assert forall|i: int| 0 <= i < questions.len() implies is_shuffled_draw(
            #[trigger] questions[i],
            e.bank,
        ) by {
            assert(e.bank.contains(base[i]));
            let k = choose|k: int| 0 <= k < e.bank.len() && e.bank[k] == base[i];
            assert(is_shuffle_of(questions[i], e.bank[k]));
        }
    }
}

/// The state of the quiz application.
#[derive(Debug, PartialEq, Eq)]
pub struct TemplateApp {
    config: QuizConfig,
    all_questions: Vec<Question>,
    current_question_pack: i32,
    session: Option<QuizSession>,
}

impl View for TemplateApp {
    type V = EngineView;

    closed spec fn view(&self) -> EngineView {
        EngineView {
            config: self.config,
            bank: views(self.all_questions@),
            pack: self.current_question_pack,
            session: match self.session {
                Some(s) => Some(s@),
                None => None,
            },
        }
    }
}

impl TemplateApp {
    /// An engine on the bank of the first subject pack, with the default
    /// configuration and no quiz started.
    pub fn new(bank: Vec<Question>) -> (app: TemplateApp)
        ensures
            app@ == (EngineView {
                config: default_config(),
                bank: views(bank@),
                pack: 0,
                session: None,
            }),
    {
        TemplateApp {
            config: QuizConfig::default(),
            all_questions: bank,
            current_question_pack: 0,
            session: None,
        }
    }

    /// An engine put together from the parts of an earlier one.
    pub fn restore(
        config: QuizConfig,
        bank: Vec<Question>,
        pack: i32,
        session: Option<QuizSession>,
    ) -> (app: TemplateApp)
        ensures
            app@ == (EngineView {
                config,
                bank: views(bank@),
                pack,
                session: match session {
                    Some(s) => Some(s@),
                    None => None,
                },
            }),
    {
        TemplateApp { config, all_questions: bank, current_question_pack: pack, session }
    }

    /// Switches to another subject pack: the bank is replaced as a whole and
    /// whatever quiz was started is discarded. The configuration stays.
    pub fn switch_pack(&mut self, pack: i32, bank: Vec<Question>)
        ensures
            final(self)@ == (EngineView {
                config: old(self)@.config,
                bank: views(bank@),
                pack,
                session: None,
            }),
            final(self)@.phase() == Phase::NotStarted,
    {
        self.all_questions = bank;
        self.current_question_pack = pack;
        self.session = None;
    }

    /// Replaces the configuration of the next quiz. A quiz in progress is
    /// not touched.
    pub fn set_config(&mut self, config: QuizConfig)
        ensures
            final(self)@ == (EngineView { config, ..old(self)@ }),
            final(self)@.phase() == old(self)@.phase(),
    {
        self.config = config;
    }

    /// Starts a new quiz on the questions that the configuration selects,
    /// discarding the quiz that was there. Where the answers are randomized
    /// each selected question has its choices shuffled on its own; the bank
    /// is not touched. Nothing is marked or revealed in the new quiz and its
    /// score is zero.
    ///
    /// Where no questions can be selected the engine is left as it was.
    pub fn start_quiz(&mut self) -> (r: Result<(), SelectError>)
        ensures
            r is Ok <==> old(self)@.can_start(),
            r matches Err(e) ==> final(self)@ == old(self)@ && e == old(self)@.refusal(),
            r is Ok ==> {
                &&& final(self)@.config == old(self)@.config
                &&& final(self)@.bank == old(self)@.bank
                &&& final(self)@.pack == old(self)@.pack
                &&& final(self)@.session matches Some(s) && s == SessionView::fresh(s.questions)
                    && old(self)@.allows(s.questions)
                &&& final(self)@.phase() == Phase::InProgress
            },
    {
        match select_questions(&self.all_questions, &self.config) {
            Ok(selected) => {
                let ghost base = views(selected@);
                let questions = if self.config.randomized_answers {
                    shuffle_answers(&selected)
                } else {
                    selected
                };
                assert(self@.selects(base) && self@.presents(base, views(questions@)));
                self.session = Some(QuizSession::begin(questions));
                Ok(())
            },
            Err(e) => Err(e),
        }
    }

    /// Records that the user picked `choice` of `question` in the quiz in
    /// progress.
    pub fn record_choice(&mut self, question: usize, choice: usize) -> (r: Result<
        (),
        RecordError,
    >)
        ensures
            final(self)@.config == old(self)@.config,
            final(self)@.bank == old(self)@.bank,
            final(self)@.pack == old(self)@.pack,
            final(self)@.phase() == old(self)@.phase(),
            match old(self)@.session {
                None => r == Err::<(), RecordError>(RecordError::NotStarted) && final(self)@
                    == old(self)@,
                Some(s) => {
                    &&& r is Ok <==> s.accepts(question as int, choice as int)
                    &&& r matches Err(e) ==> e == s.refusal(question as int, choice as int)
                        && final(self)@ == old(self)@
                    &&& r is Ok ==> final(self)@.session == Some(
                        s.after_record(question as int, choice as int),
                    )
                },
            },
    {
        match &mut self.session {
            Some(session) => session.record_choice(question, choice),
            None => Err(RecordError::NotStarted),
        }
    }

    /// Reveals the answers of the quiz in progress and returns its score.
    /// Without a quiz there is nothing to reveal.
    pub fn reveal_answers(&mut self) -> (r: Option<usize>)
        ensures
            final(self)@.config == old(self)@.config,
            final(self)@.bank == old(self)@.bank,
            final(self)@.pack == old(self)@.pack,
            final(self)@.phase() == if old(self)@.phase() == Phase::NotStarted {
                Phase::NotStarted
            } else {
                Phase::Revealed
            },
            match old(self)@.session {
                None => r is None && final(self)@ == old(self)@,
                Some(s) => r == Some(s.tally() as usize) && final(self)@.session == Some(
                    s.after_reveal(),
                ),
            },
    {
        match &mut self.session {
            Some(session) => Some(session.reveal_answers()),
            None => None,
        }
    }

    /// The configuration of the next quiz.
    pub fn config(&self) -> (c: QuizConfig)
        ensures
            c == self@.config,
    {
        self.config
    }

    /// The bank of the current subject pack.
    pub fn bank(&self) -> (r: &Vec<Question>)
        ensures
            views(r@) == self@.bank,
    {
        &self.all_questions
    }

    /// The number of the current subject pack.
    pub fn current_pack(&self) -> (pack: i32)
        ensures
            pack == self@.pack,
    {
        self.current_question_pack
    }

    /// The quiz that was started, if any.
    pub fn session(&self) -> (r: Option<&QuizSession>)
        ensures
            match r {
                Some(s) => self@.session == Some(s@),
                None => self@.session is None,
            },
    {
        self.session.as_ref()
    }

    /// Where the quiz stands.
    pub fn phase(&self) -> (p: Phase)
        ensures
            p == self@.phase(),
    {
        match &self.session {
            None => Phase::NotStarted,
            Some(s) => if s.is_revealed() {
                Phase::Revealed
            } else {
                Phase::InProgress
            },
        }
    }
}

} // verus!
