use quiz_engine::permutation::{check_permutation, order_from_draws, random_order};
use quiz_engine::{shuffle_answers, shuffle_answers_by, Question};

fn lettered_question(answer: &[usize]) -> Question {
    Question::new(
        "pick".to_string(),
        vec!["A".to_string(), "B".to_string(), "C".to_string(), "D".to_string()],
        answer.to_vec(),
    )
    .expect("a well-formed question")
}

fn letters_of(q: &Question) -> String {
    q.choices().concat()
}

fn correct_letters(q: &Question) -> Vec<String> {
    q.answer().iter().map(|&i| q.choices()[i].clone()).collect()
}

fn all_orders_of_four() -> Vec<Vec<usize>> {
    let mut orders = Vec::new();
    for a in 0..4usize {
        for b in 0..4usize {
            for c in 0..4usize {
                for d in 0..4usize {
                    let order = vec![a, b, c, d];
                    let mut sorted = order.clone();
                    sorted.sort();
                    if sorted == vec![0, 1, 2, 3] {
                        orders.push(order);
                    }
                }
            }
        }
    }
    orders
}

#[test]
fn order_from_draws_applies_the_exchanges_in_turn() {
    assert_eq!(order_from_draws(&vec![2, 1, 3, 3]), Some(vec![2, 1, 3, 0]));
    assert_eq!(order_from_draws(&vec![3, 3, 3, 3]), Some(vec![3, 0, 1, 2]));
    assert_eq!(order_from_draws(&vec![1, 2, 2]), Some(vec![1, 2, 0]));
}

#[test]
fn order_from_draws_that_stay_in_place_is_the_identity() {
    assert_eq!(order_from_draws(&vec![0, 1, 2, 3]), Some(vec![0, 1, 2, 3]));
    assert_eq!(order_from_draws(&vec![0]), Some(vec![0]));
    assert_eq!(order_from_draws(&vec![]), Some(vec![]));
}

#[test]
fn order_from_draws_refuses_a_draw_behind_its_position() {
    assert_eq!(order_from_draws(&vec![0, 0]), None);
    assert_eq!(order_from_draws(&vec![2, 1, 1]), None);
}

#[test]
fn order_from_draws_refuses_a_draw_past_the_end() {
    assert_eq!(order_from_draws(&vec![1]), None);
    assert_eq!(order_from_draws(&vec![0, 1, 3]), None);
}

#[test]
fn every_order_of_four_comes_from_exactly_one_list_of_draws() {
    let mut seen: Vec<Vec<usize>> = Vec::new();
    for a in 0..4usize {
        for b in 1..4usize {
            for c in 2..4usize {
                let order = order_from_draws(&vec![a, b, c, 3]).expect("valid draws");
                assert!(check_permutation(&order, 4));
                assert!(!seen.contains(&order));
                seen.push(order);
            }
        }
    }
    assert_eq!(seen.len(), 24);
}

#[test]
fn check_permutation_accepts_each_index_once() {
    assert!(check_permutation(&vec![], 0));
    assert!(check_permutation(&vec![0], 1));
    assert!(check_permutation(&vec![2, 0, 1], 3));
    for order in all_orders_of_four() {
        assert!(check_permutation(&order, 4));
    }
}

#[test]
fn check_permutation_refuses_repeats_gaps_and_wrong_lengths() {
    assert!(!check_permutation(&vec![0, 0], 2));
    assert!(!check_permutation(&vec![0, 2], 2));
    assert!(!check_permutation(&vec![0, 1], 3));
    assert!(!check_permutation(&vec![0, 1, 2], 2));
    assert!(!check_permutation(&vec![1, 2, 3], 3));
}

#[test]
fn reordered_moves_choices_and_remaps_a_single_answer() {
    let q = lettered_question(&[1]);
    let r = q.reordered(&vec![2, 1, 3, 0]).expect("a permutation");
    assert_eq!(letters_of(&r), "CBDA");
    assert_eq!(r.answer(), &vec![1usize]);
    assert_eq!(r.text(), q.text());
    let r = q.reordered(&vec![1, 0, 2, 3]).expect("a permutation");
    assert_eq!(letters_of(&r), "BACD");
    assert_eq!(r.answer(), &vec![0usize]);
}

#[test]
fn reordered_remaps_every_answer_of_a_multi_select_question() {
    let q = lettered_question(&[0, 2]);
    let r = q.reordered(&vec![2, 1, 3, 0]).expect("a permutation");
    assert_eq!(letters_of(&r), "CBDA");
    assert_eq!(r.answer(), &vec![3usize, 0]);
    assert_eq!(correct_letters(&r), vec!["A".to_string(), "C".to_string()]);
}

#[test]
fn reordered_by_the_identity_changes_nothing() {
    let q = lettered_question(&[3, 0, 1]);
    assert_eq!(q.reordered(&vec![0, 1, 2, 3]), Some(q.clone()));
}

#[test]
fn reordered_refuses_what_is_no_permutation_of_the_choices() {
    let q = lettered_question(&[0, 2]);
    assert_eq!(q.reordered(&vec![0, 1, 2]), None);
    assert_eq!(q.reordered(&vec![0, 1, 2, 2]), None);
    assert_eq!(q.reordered(&vec![0, 1, 2, 4]), None);
    assert_eq!(q.reordered(&vec![0, 1, 2, 3, 4]), None);
}

#[test]
fn reordered_leaves_the_question_untouched() {
    let q = lettered_question(&[0, 2]);
    let _ = q.reordered(&vec![3, 2, 1, 0]);
    assert_eq!(q, lettered_question(&[0, 2]));
}

#[test]
fn every_reordering_is_a_bijection_on_choices_and_answers() {
    for answer in [vec![], vec![2], vec![0, 2], vec![3, 1, 0], vec![0, 1, 2, 3]] {
        let q = lettered_question(&answer);
        for order in all_orders_of_four() {
            let r = q.reordered(&order).expect("a permutation");
            let mut letters = r.choices().clone();
            letters.sort();
            assert_eq!(letters.concat(), "ABCD");
            assert_eq!(correct_letters(&r), correct_letters(&q));
            let mut positions = r.answer().clone();
            positions.sort();
            positions.dedup();
            assert_eq!(positions.len(), answer.len());
            for k in 0..4 {
                assert_eq!(r.answer().contains(&k), q.answer().contains(&order[k]));
            }
        }
    }
}

#[test]
fn marks_that_move_with_the_choices_are_graded_alike() {
    let q = lettered_question(&[0, 2]);
    let rows = [
        vec![true, false, true, false],
        vec![true, true, true, false],
        vec![true, false, false, false],
        vec![false, false, false, false],
        vec![false, true, false, true],
    ];
    for order in all_orders_of_four() {
        let r = q.reordered(&order).expect("a permutation");
        for marks in &rows {
            let moved: Vec<bool> = order.iter().map(|&from| marks[from]).collect();
            assert_eq!(r.is_answered_exactly(&moved), q.is_answered_exactly(marks));
            assert_eq!(r.misses_correct(&moved), q.misses_correct(marks));
        }
    }
}

#[test]
fn shuffled_by_follows_the_draws() {
    let q = lettered_question(&[0, 2]);
    let r = q.shuffled_by(&vec![2, 1, 3, 3]).expect("valid draws");
    assert_eq!(letters_of(&r), "CBDA");
    assert_eq!(r.answer(), &vec![3usize, 0]);
    let r = q.shuffled_by(&vec![0, 1, 2, 3]).expect("valid draws");
    assert_eq!(r, q);
}

#[test]
fn shuffled_by_refuses_draws_that_do_not_fit_the_question() {
    let q = lettered_question(&[0, 2]);
    assert_eq!(q.shuffled_by(&vec![0, 1, 2]), None);
    assert_eq!(q.shuffled_by(&vec![0, 1, 2, 3, 4]), None);
    assert_eq!(q.shuffled_by(&vec![0, 0, 2, 3]), None);
    assert_eq!(q.shuffled_by(&vec![0, 1, 2, 4]), None);
}

#[test]
fn shuffled_keeps_choices_and_correct_strings() {
    let q = lettered_question(&[0, 2]);
    for _ in 0..200 {
        let r = q.shuffled();
        let mut letters = r.choices().clone();
        letters.sort();
        assert_eq!(letters.concat(), "ABCD");
        assert_eq!(correct_letters(&r), vec!["A".to_string(), "C".to_string()]);
        assert_eq!(r.text(), "pick");
    }
    assert_eq!(q, lettered_question(&[0, 2]));
}

#[test]
fn a_thousand_shuffles_cover_most_of_the_twenty_four_orders() {
    let q = lettered_question(&[1]);
    let mut seen: Vec<String> = Vec::new();
    for _ in 0..1000 {
        let order = letters_of(&q.shuffled());
        if !seen.contains(&order) {
            seen.push(order);
        }
    }
    assert!(seen.len() >= 18, "only {} of 24 orders were seen", seen.len());
    assert!(seen.len() <= 24);
}

#[test]
fn random_order_is_a_permutation_of_any_length() {
    for n in 0..12usize {
        for _ in 0..20 {
            let order = random_order(n);
            assert_eq!(order.len(), n);
            assert!(check_permutation(&order, n));
        }
    }
}

#[test]
fn random_order_moves_things() {
    let mut moved = false;
    for _ in 0..200 {
        if random_order(6) != vec![0, 1, 2, 3, 4, 5] {
            moved = true;
        }
    }
    assert!(moved);
}

fn two_questions() -> Vec<Question> {
    vec![
        lettered_question(&[0, 2]),
        Question::new("yes?".to_string(), vec!["yes".to_string(), "no".to_string()], vec![0])
            .expect("a well-formed question"),
    ]
}

#[test]
fn shuffle_answers_by_shuffles_each_question_by_its_own_draws() {
    let questions = two_questions();
    let out =
        shuffle_answers_by(&questions, &vec![vec![2, 1, 3, 3], vec![1, 1]]).expect("valid draws");
    assert_eq!(out.len(), 2);
    assert_eq!(letters_of(&out[0]), "CBDA");
    assert_eq!(out[0].answer(), &vec![3usize, 0]);
    assert_eq!(out[1].choices(), &vec!["no".to_string(), "yes".to_string()]);
    assert_eq!(out[1].answer(), &vec![1usize]);
    assert_eq!(questions, two_questions());
}

#[test]
fn shuffle_answers_by_refuses_rows_that_do_not_fit() {
    let questions = two_questions();
    assert_eq!(shuffle_answers_by(&questions, &vec![vec![0, 1, 2, 3]]), None);
    assert_eq!(shuffle_answers_by(&questions, &vec![vec![0, 1, 2, 3], vec![0, 1, 1]]), None);
    assert_eq!(shuffle_answers_by(&questions, &vec![vec![0, 1, 2, 3], vec![0, 0]]), None);
    assert_eq!(shuffle_answers_by(&questions, &vec![vec![0, 1], vec![0, 1, 2, 3]]), None);
    assert_eq!(shuffle_answers_by(&vec![], &vec![]), Some(vec![]));
}

#[test]
fn shuffle_answers_keeps_every_question_in_place_and_intact() {
    let questions = two_questions();
    for _ in 0..100 {
        let out = shuffle_answers(&questions);
        assert_eq!(out.len(), questions.len());
        for (q, base) in out.iter().zip(questions.iter()) {
            assert_eq!(q.text(), base.text());
            let mut got = q.choices().clone();
            got.sort();
            let mut want = base.choices().clone();
            want.sort();
            assert_eq!(got, want);
            assert_eq!(correct_letters(q), correct_letters(base));
        }
    }
    assert_eq!(questions, two_questions());
}
