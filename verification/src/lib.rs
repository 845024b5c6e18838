//! A quiz session engine: question selection, answer shuffling, response
//! recording and scoring, kept apart from any presentation layer.
//!
//! Every type comes with a mathematical model, its view, and the contracts of
//! the functions are stated over those models. Randomness enters at one
//! place only, and each function that draws has a counterpart that takes the
//! draws as an argument and is specified exactly.

pub mod engine;
pub mod grading;
pub mod permutation;
pub mod question;
mod random;
pub mod select;
pub mod session;
pub mod shuffle;

pub use engine::{EngineView, Phase, TemplateApp};
pub use question::{Question, QuestionError, QuestionView};
pub use select::{
    select_by_draws, select_questions, select_random, select_range, QuizConfig, RangeError,
    SelectError,
};
pub use session::{QuizSession, RecordError, SessionView};
pub use shuffle::{shuffle_answers, shuffle_answers_by};
