use mhmot::{GameError, Player};

fn player() -> Player {
    Player::new("p1".to_string(), "Anna".to_string())
}

#[test]
fn new_player_starts_with_750() {
    let p = player();
    assert_eq!(p.id, "p1");
    assert_eq!(p.name, "Anna");
    assert_eq!(p.balance, 750);
    assert_eq!(p.current_bet, 0);
    assert!(p.answers.is_empty());
    assert!(p.is_active);
    assert!(!p.has_folded);
}

#[test]
fn place_bet_moves_money_into_current_bet() {
    let mut p = player();
    assert_eq!(p.place_bet(50), Ok(()));
    assert_eq!(p.balance, 700);
    assert_eq!(p.current_bet, 50);
}

#[test]
fn place_bet_of_whole_balance_leaves_zero() {
    let mut p = player();
    assert_eq!(p.place_bet(750), Ok(()));
    assert_eq!(p.balance, 0);
    assert_eq!(p.current_bet, 750);
    assert!(p.is_eliminated());
}

#[test]
fn place_bet_beyond_balance_fails_and_changes_nothing() {
    let mut p = player();
    p.current_bet = 5;
    assert_eq!(p.place_bet(751), Err(GameError::InsufficientFunds));
    assert_eq!(p.balance, 750);
    assert_eq!(p.current_bet, 5);
}

#[test]
fn fold_clears_active_and_sets_folded() {
    let mut p = player();
    p.fold();
    assert!(p.has_folded);
    assert!(!p.is_active);
}

#[test]
fn win_pot_credits_balance() {
    let mut p = player();
    p.win_pot(120);
    assert_eq!(p.balance, 870);
}

#[test]
fn resubmitted_answer_keeps_its_judgment() {
    let mut p = player();
    p.add_answer_at(1, "img-a".to_string(), "t1".to_string());
    p.add_answer_at(2, "img-b".to_string(), "t2".to_string());
    p.approve_answer(1, true);
    p.add_answer_at(1, "img-c".to_string(), "t3".to_string());
    assert_eq!(p.answers.len(), 2);
    assert_eq!(p.answers[0].question_number, 1);
    assert_eq!(p.answers[0].image_data, "img-c");
    assert_eq!(p.answers[0].timestamp, "t3");
    assert_eq!(p.answers[0].is_correct, Some(true));
    assert_eq!(p.answers[1].is_correct, None);
}

#[test]
fn add_answer_stamps_a_time() {
    let mut p = player();
    p.add_answer(3, "img".to_string());
    assert_eq!(p.answers.len(), 1);
    assert_eq!(p.answers[0].question_number, 3);
    assert_eq!(p.answers[0].is_correct, None);
    assert!(!p.answers[0].timestamp.is_empty());
}

#[test]
fn approve_without_answer_is_a_no_op() {
    let mut p = player();
    p.add_answer_at(1, "img".to_string(), "t".to_string());
    p.approve_answer(2, true);
    assert_eq!(p.answers.len(), 1);
    assert_eq!(p.answers[0].is_correct, None);
}

#[test]
fn count_correct_answers_counts_only_true() {
    let mut p = player();
    for q in 1..=4 {
        p.add_answer_at(q, "img".to_string(), "t".to_string());
    }
    p.approve_answer(1, true);
    p.approve_answer(2, false);
    p.approve_answer(4, true);
    assert_eq!(p.count_correct_answers(), 2);
    p.clear_answers();
    assert_eq!(p.count_correct_answers(), 0);
}

#[test]
fn replace_answer_drops_old_and_resets_judgment() {
    let mut p = player();
    p.add_answer_at(1, "a".to_string(), "t1".to_string());
    p.add_answer_at(2, "b".to_string(), "t2".to_string());
    p.approve_answer(1, true);
    p.replace_answer(1, "c".to_string(), "t3".to_string());
    assert_eq!(p.answers.len(), 2);
    assert_eq!(p.answers[0].question_number, 2);
    assert_eq!(p.answers[1].question_number, 1);
    assert_eq!(p.answers[1].image_data, "c");
    assert_eq!(p.answers[1].is_correct, None);
}

#[test]
fn reset_for_round_keeps_active_flag() {
    let mut p = player();
    p.place_bet(30).unwrap();
    p.add_answer_at(1, "a".to_string(), "t".to_string());
    p.has_folded = true;
    p.is_active = false;
    p.reset_for_round();
    assert_eq!(p.current_bet, 0);
    assert!(p.answers.is_empty());
    assert!(!p.has_folded);
    assert!(!p.is_active);
    assert_eq!(p.balance, 720);
}

#[test]
fn eliminated_means_no_positive_balance() {
    let mut p = player();
    assert!(!p.is_eliminated());
    p.balance = 0;
    assert!(p.is_eliminated());
    p.balance = -10;
    assert!(p.is_eliminated());
    p.balance = 1;
    assert!(!p.is_eliminated());
}
