use quiz_engine::{
    select_by_draws, select_questions, select_random, select_range, Question, QuizConfig,
    RangeError, SelectError,
};

fn numbered_bank(len: usize) -> Vec<Question> {
    (0..len)
        .map(|i| {
            Question::new(
                format!("question {}", i),
                vec![format!("{}a", i), format!("{}b", i), format!("{}c", i), format!("{}d", i)],
                vec![i % 4],
            )
            .expect("a well-formed question")
        })
        .collect()
}

#[test]
fn range_selection_is_the_bank_slice_in_order() {
    let bank = numbered_bank(10);
    let selected = select_range(&bank, 2, 7).expect("a range inside the bank");
    assert_eq!(selected.as_slice(), &bank[2..7]);
}

#[test]
fn range_selection_of_every_range_inside_the_bank() {
    let bank = numbered_bank(6);
    for from in 0..=6usize {
        for to in from..=6usize {
            let selected = select_range(&bank, from as i32, to as i32).expect("inside the bank");
            assert_eq!(selected.as_slice(), &bank[from..to]);
        }
    }
}

#[test]
fn range_selection_of_the_whole_bank() {
    let bank = numbered_bank(4);
    assert_eq!(select_range(&bank, 0, 4), Ok(numbered_bank(4)));
}

#[test]
fn empty_range_selects_nothing() {
    let bank = numbered_bank(4);
    assert_eq!(select_range(&bank, 3, 3), Ok(vec![]));
    assert_eq!(select_range(&bank, 3, 1), Ok(vec![]));
    assert_eq!(select_range(&bank, 9, 9), Ok(vec![]));
    assert_eq!(select_range(&bank, -2, -5), Ok(vec![]));
}

#[test]
fn range_past_the_end_is_a_range_error() {
    let bank = numbered_bank(4);
    assert_eq!(select_range(&bank, 1, 5), Err(RangeError { from: 1, to: 5, len: 4 }));
    assert_eq!(select_range(&bank, 4, 5), Err(RangeError { from: 4, to: 5, len: 4 }));
    assert_eq!(select_range(&bank, 1, 1100), Err(RangeError { from: 1, to: 1100, len: 4 }));
}

#[test]
fn range_before_the_start_is_a_range_error() {
    let bank = numbered_bank(4);
    assert_eq!(select_range(&bank, -1, 2), Err(RangeError { from: -1, to: 2, len: 4 }));
    assert_eq!(select_range(&bank, -3, -1), Err(RangeError { from: -3, to: -1, len: 4 }));
}

#[test]
fn range_on_an_empty_bank() {
    let bank: Vec<Question> = vec![];
    assert_eq!(select_range(&bank, 0, 0), Ok(vec![]));
    assert_eq!(select_range(&bank, 0, 1), Err(RangeError { from: 0, to: 1, len: 0 }));
}

#[test]
fn range_selection_leaves_the_bank_alone() {
    let bank = numbered_bank(5);
    let selected = select_range(&bank, 0, 5).expect("inside the bank");
    drop(selected);
    assert_eq!(bank, numbered_bank(5));
}

#[test]
fn draws_select_with_replacement_in_draw_order() {
    let bank = numbered_bank(5);
    let selected = select_by_draws(&bank, &vec![3, 3, 0, 4, 3]).expect("draws inside the bank");
    let expected =
        vec![bank[3].clone(), bank[3].clone(), bank[0].clone(), bank[4].clone(), bank[3].clone()];
    assert_eq!(selected, expected);
}

#[test]
fn draws_outside_the_bank_are_refused() {
    let bank = numbered_bank(5);
    assert_eq!(select_by_draws(&bank, &vec![0, 5]), None);
    assert_eq!(select_by_draws(&vec![], &vec![0]), None);
}

#[test]
fn no_draws_select_nothing() {
    assert_eq!(select_by_draws(&numbered_bank(2), &vec![]), Some(vec![]));
    assert_eq!(select_by_draws(&vec![], &vec![]), Some(vec![]));
}

#[test]
fn random_selection_has_the_requested_count_of_bank_questions() {
    let bank = numbered_bank(7);
    let selected = select_random(&bank, 40).expect("a bank to draw from");
    assert_eq!(selected.len(), 40);
    for q in &selected {
        assert!(bank.contains(q));
    }
}

#[test]
fn random_selection_draws_with_replacement() {
    let bank = numbered_bank(3);
    let selected = select_random(&bank, 10).expect("a bank to draw from");
    assert_eq!(selected.len(), 10);
    let mut repeated = false;
    for i in 0..selected.len() {
        for j in 0..i {
            if selected[i] == selected[j] {
                repeated = true;
            }
        }
    }
    assert!(repeated);
}

#[test]
fn random_selection_reaches_every_question() {
    let bank = numbered_bank(5);
    let selected = select_random(&bank, 1000).expect("a bank to draw from");
    for q in &bank {
        assert!(selected.contains(q));
    }
}

#[test]
fn random_selection_of_nothing() {
    assert_eq!(select_random(&numbered_bank(3), 0), Ok(vec![]));
    assert_eq!(select_random(&numbered_bank(3), -4), Ok(vec![]));
    assert_eq!(select_random(&vec![], 0), Ok(vec![]));
}

#[test]
fn random_selection_from_an_empty_bank_is_refused() {
    assert_eq!(select_random(&vec![], 1), Err(SelectError::EmptyBank));
    assert_eq!(select_random(&vec![], 20), Err(SelectError::EmptyBank));
}

#[test]
fn configured_range_is_selected_as_it_stands_in_the_bank() {
    let bank = numbered_bank(8);
    let config = QuizConfig {
        randomized_question: false,
        randomized_answers: true,
        question_amount: 3,
        from_question: 1,
        to_question: 6,
    };
    let selected = select_questions(&bank, &config).expect("inside the bank");
    assert_eq!(selected.as_slice(), &bank[1..6]);
}

#[test]
fn configured_range_outside_the_bank_is_refused() {
    let bank = numbered_bank(8);
    let config = QuizConfig {
        randomized_question: false,
        randomized_answers: false,
        question_amount: 3,
        from_question: 1,
        to_question: 1100,
    };
    assert_eq!(
        select_questions(&bank, &config),
        Err(SelectError::Range(RangeError { from: 1, to: 1100, len: 8 }))
    );
}

#[test]
fn configured_draws_ignore_the_range() {
    let bank = numbered_bank(8);
    let config = QuizConfig {
        randomized_question: true,
        randomized_answers: true,
        question_amount: 25,
        from_question: 1,
        to_question: 1100,
    };
    let selected = select_questions(&bank, &config).expect("a bank to draw from");
    assert_eq!(selected.len(), 25);
    for q in &selected {
        assert!(bank.contains(q));
    }
}

#[test]
fn default_configuration() {
    let config = QuizConfig::default();
    assert!(!config.randomized_question);
    assert!(!config.randomized_answers);
    assert_eq!(config.question_amount, 20);
    assert_eq!(config.from_question, 1);
    assert_eq!(config.to_question, 1100);
}
