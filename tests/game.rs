use mhmot::commands::active_game;
use mhmot::{start_new_game, BettingPhase, GameError, GameState, Round, RoundResult};

fn names(n: usize) -> Vec<String> {
    (0..n).map(|i| format!("Name{}", i)).collect()
}

fn id(s: &str) -> String {
    s.to_string()
}

fn result_for(winner: &str, pot: i32) -> RoundResult {
    RoundResult {
        winner_id: winner.to_string(),
        winner_name: String::new(),
        pot_amount: pot,
        correct_answers: 0,
        player_scores: Vec::new(),
    }
}

#[test]
fn new_game_numbers_players() {
    let g = GameState::new(names(3));
    assert_eq!(g.players.len(), 3);
    assert_eq!(g.players[0].id, "player_0");
    assert_eq!(g.players[2].id, "player_2");
    assert_eq!(g.players[1].name, "Name1");
    assert!(g.game_id.starts_with("game_"));
    assert!(!g.created_at.is_empty());
    assert_eq!(g.round_number, 0);
    assert!(g.current_round.is_none());
    assert!(g.writing_enabled);
    assert!(!g.video_mode_active);
    assert!(!g.is_finished);
}

#[test]
fn game_with_clock_uses_given_time() {
    let g = GameState::with_clock(names(12), 1700000000, "then".to_string());
    assert_eq!(g.game_id, "game_1700000000");
    assert_eq!(g.created_at, "then");
    assert_eq!(g.players[11].id, "player_11");
    let g = GameState::with_clock(names(1), -5, "t".to_string());
    assert_eq!(g.game_id, "game_-5");
}

#[test]
fn start_new_game_opens_round_one() {
    let g = start_new_game(names(3));
    assert_eq!(g.round_number, 1);
    let r = g.current_round.as_ref().unwrap();
    assert_eq!(r.round_number, 1);
    assert_eq!(r.min_bet, 10);
    assert_eq!(r.phase, BettingPhase::Initial);
    for p in &g.players {
        assert_eq!(p.balance, 750);
        assert_eq!(p.current_bet, 0);
    }
}

#[test]
fn start_new_round_resets_per_round_state() {
    let mut g = GameState::new(names(3));
    g.players[0].current_bet = 40;
    g.players[0].add_answer_at(1, "a".to_string(), "t".to_string());
    g.players[1].has_folded = true;
    g.players[1].is_active = false;
    g.players[2].balance = 0;
    g.start_new_round(Round::new(2));
    assert_eq!(g.round_number, 1);
    for p in &g.players {
        assert_eq!(p.current_bet, 0);
        assert!(p.answers.is_empty());
        assert!(!p.has_folded);
    }
    assert!(g.players[0].is_active);
    assert!(!g.players[1].is_active);
    assert!(!g.players[2].is_active);
    assert_eq!(g.current_round.as_ref().unwrap().round_number, 2);
}

#[test]
fn example_round_one_bets_and_sweep() {
    let mut g = start_new_game(names(3));
    assert_eq!(g.collect_initial_bets(), Ok(()));
    for p in &g.players {
        assert_eq!(p.current_bet, 10);
        assert_eq!(p.balance, 740);
    }
    assert_eq!(g.current_round.as_ref().unwrap().pot, 0);
    g.add_bets_to_pot();
    assert_eq!(g.current_round.as_ref().unwrap().pot, 30);
    for p in &g.players {
        assert_eq!(p.current_bet, 0);
        assert_eq!(p.balance, 740);
    }
}

#[test]
fn sweep_without_round_changes_nothing() {
    let mut g = GameState::new(names(2));
    g.players[0].current_bet = 10;
    g.add_bets_to_pot();
    assert_eq!(g.players[0].current_bet, 10);
    assert_eq!(g.collect_initial_bets(), Ok(()));
    assert_eq!(g.players[0].balance, 750);
}

#[test]
fn game_place_bet_goes_to_pot() {
    let mut g = start_new_game(names(2));
    assert_eq!(g.place_bet(&id("player_1"), 25), Ok(()));
    assert_eq!(g.players[1].balance, 725);
    assert_eq!(g.current_round.as_ref().unwrap().pot, 25);
    assert_eq!(g.place_bet(&id("player_1"), 60), Err(GameError::InvalidBetAmount));
    assert_eq!(g.place_bet(&id("nobody"), 25), Err(GameError::PlayerNotFound));
    let mut g = GameState::new(names(2));
    assert_eq!(g.place_bet(&id("player_0"), 25), Err(GameError::NoActiveRound));
}

#[test]
fn fold_and_toggle_active() {
    let mut g = start_new_game(names(2));
    assert_eq!(g.player_fold(&id("player_0")), Ok(()));
    assert!(g.players[0].has_folded);
    assert!(!g.players[0].is_active);
    assert_eq!(g.toggle_player_active(&id("player_0"), true), Ok(()));
    assert!(g.players[0].is_active);
    assert_eq!(g.player_fold(&id("x")), Err(GameError::PlayerNotFound));
    assert_eq!(g.toggle_player_active(&id("x"), true), Err(GameError::PlayerNotFound));
}

#[test]
fn advance_phase_through_game() {
    let mut g = start_new_game(names(2));
    g.advance_phase();
    assert_eq!(g.current_round.as_ref().unwrap().phase, BettingPhase::CollectingBets);
    let mut g = GameState::new(names(2));
    g.advance_phase();
    assert!(g.current_round.is_none());
}

#[test]
fn answers_through_game() {
    let mut g = start_new_game(names(2));
    assert_eq!(g.update_answer(&id("player_0"), 1, "img".to_string()), Ok(()));
    assert_eq!(g.approve_answer(&id("player_0"), 1, true), Ok(()));
    assert_eq!(g.players[0].count_correct_answers(), 1);
    assert_eq!(g.clear_player_answers(&id("player_0")), Ok(()));
    assert!(g.players[0].answers.is_empty());
    assert_eq!(g.update_answer(&id("zz"), 1, "img".to_string()), Err(GameError::PlayerNotFound));
    assert_eq!(g.approve_answer(&id("zz"), 1, true), Err(GameError::PlayerNotFound));
    assert_eq!(g.clear_player_answers(&id("zz")), Err(GameError::PlayerNotFound));
}

#[test]
fn answers_refused_while_writing_disabled() {
    let mut g = start_new_game(names(2));
    g.toggle_writing(false).unwrap();
    assert_eq!(
        g.update_answer(&id("player_0"), 1, "img".to_string()),
        Err(GameError::OperationNotPermitted)
    );
    assert!(g.players[0].answers.is_empty());
}

#[test]
fn replace_answer_bypasses_writing_gate() {
    let mut g = start_new_game(names(2));
    g.toggle_video_mode();
    assert!(g.replace_answer(&id("player_1"), 2, "img".to_string()));
    assert_eq!(g.players[1].answers.len(), 1);
    assert!(!g.players[1].answers[0].timestamp.is_empty());
    assert!(!g.replace_answer(&id("nobody"), 2, "img".to_string()));
}

#[test]
fn video_mode_and_writing_are_coupled() {
    let mut g = start_new_game(names(2));
    assert!(g.writing_enabled);
    g.toggle_video_mode();
    assert!(g.video_mode_active);
    assert!(!g.writing_enabled);
    assert_eq!(g.toggle_writing(true), Err(GameError::OperationNotPermitted));
    assert!(!g.writing_enabled);
    assert!(g.video_mode_active);
    assert_eq!(g.toggle_writing(false), Ok(()));
    g.toggle_video_mode();
    assert!(!g.video_mode_active);
    assert!(g.writing_enabled);
    assert_eq!(g.toggle_writing(false), Ok(()));
    assert!(!g.writing_enabled);
}

#[test]
fn reveal_question_toggles() {
    let mut g = start_new_game(names(2));
    assert_eq!(g.reveal_question(3), Ok(()));
    assert_eq!(g.current_round.as_ref().unwrap().revealed_questions, vec![3]);
    assert_eq!(g.reveal_question(3), Ok(()));
    assert!(g.current_round.as_ref().unwrap().revealed_questions.is_empty());
    let mut g = GameState::new(names(2));
    assert_eq!(g.reveal_question(3), Err(GameError::NoActiveRound));
}

#[test]
fn complete_round_pays_winner_and_closes_round() {
    let mut g = start_new_game(names(3));
    g.current_round.as_mut().unwrap().add_to_pot(90);
    g.players[2].balance = 0;
    assert_eq!(g.complete_round(result_for("player_1", 90)), Ok(()));
    assert_eq!(g.players[1].balance, 840);
    assert!(g.current_round.is_none());
    assert_eq!(g.round_history.len(), 1);
    assert_eq!(g.round_history[0].winner_id, "player_1");
    assert!(!g.players[2].is_active);
    assert!(!g.is_finished);
}

#[test]
fn complete_round_with_unknown_winner_fails() {
    let mut g = start_new_game(names(3));
    assert_eq!(g.complete_round(result_for("ghost", 10)), Err(GameError::PlayerNotFound));
    assert!(g.current_round.is_some());
    assert!(g.round_history.is_empty());
}

#[test]
fn round_four_narrows_the_field() {
    let mut g = GameState::new(names(3));
    g.players[0].balance = 100;
    g.players[1].balance = 50;
    g.players[2].balance = 200;
    g.round_number = 4;
    assert_eq!(g.complete_round(result_for("player_0", 0)), Ok(()));
    assert!(g.players[0].is_active);
    assert!(!g.players[1].is_active);
    assert!(g.players[2].is_active);
    assert!(!g.is_finished);
}

#[test]
fn narrowing_only_after_round_four() {
    let mut g = GameState::new(names(3));
    g.players[1].balance = 50;
    g.round_number = 3;
    g.complete_round(result_for("player_0", 0)).unwrap();
    assert!(g.players.iter().all(|p| p.is_active));
    let mut g = GameState::new(names(3));
    g.players[1].balance = 50;
    g.round_number = 5;
    g.complete_round(result_for("player_0", 0)).unwrap();
    assert!(g.players.iter().all(|p| p.is_active));
}

#[test]
fn narrowing_needs_more_than_two_in_contention() {
    let mut g = GameState::new(names(3));
    g.players[0].balance = 100;
    g.players[1].balance = 50;
    g.players[2].is_active = false;
    g.round_number = 4;
    g.complete_round(result_for("player_0", 0)).unwrap();
    assert!(g.players[0].is_active);
    assert!(g.players[1].is_active);
}

#[test]
fn narrowing_tie_takes_first_in_roster() {
    let mut g = GameState::new(names(3));
    g.players[0].balance = 300;
    g.players[1].balance = 50;
    g.players[2].balance = 50;
    g.round_number = 4;
    g.complete_round(result_for("player_0", 0)).unwrap();
    assert!(g.players[0].is_active);
    assert!(!g.players[1].is_active);
    assert!(g.players[2].is_active);
}

#[test]
fn game_finishes_when_one_player_remains() {
    let mut g = GameState::new(names(3));
    g.players[1].balance = 0;
    g.players[2].balance = -20;
    g.round_number = 2;
    g.complete_round(result_for("player_0", 0)).unwrap();
    assert!(g.is_finished);
}

#[test]
fn full_game_finishes_after_round_seven() {
    let mut g = start_new_game(names(3));
    for round in 1..=7 {
        assert_eq!(g.round_number, round);
        assert_eq!(g.complete_current_round(Some(id("player_0"))), Ok(()));
        if round < 7 {
            assert!(!g.is_finished);
            assert_eq!(g.start_next_round(), Ok(()));
        }
    }
    assert!(g.is_finished);
    assert_eq!(g.round_history.len(), 7);
    assert_eq!(g.start_next_round(), Err(GameError::GameFinished));
}

#[test]
fn round_limit_is_enforced() {
    let mut g = GameState::new(names(3));
    g.round_number = 7;
    assert_eq!(g.start_next_round(), Err(GameError::RoundLimitReached));
    g.round_number = 6;
    assert_eq!(g.start_next_round(), Ok(()));
    assert_eq!(g.round_number, 7);
    assert_eq!(g.current_round.as_ref().unwrap().min_bet, 80);
}

#[test]
fn complete_current_round_with_chosen_winner() {
    let mut g = start_new_game(names(3));
    g.players[2].add_answer_at(1, "a".to_string(), "t".to_string());
    g.players[2].approve_answer(1, true);
    g.players[0].fold();
    g.current_round.as_mut().unwrap().add_to_pot(60);
    assert_eq!(g.complete_current_round(Some(id("player_1"))), Ok(()));
    assert_eq!(g.players[1].balance, 810);
    let res = &g.round_history[0];
    assert_eq!(res.winner_id, "player_1");
    assert_eq!(res.winner_name, "Name1");
    assert_eq!(res.pot_amount, 60);
    assert_eq!(res.correct_answers, 0);
    assert_eq!(res.player_scores, vec![(id("player_1"), 0), (id("player_2"), 1)]);
}

#[test]
fn complete_current_round_determines_winner() {
    let mut g = start_new_game(names(3));
    g.players[2].add_answer_at(1, "a".to_string(), "t".to_string());
    g.players[2].approve_answer(1, true);
    g.current_round.as_mut().unwrap().add_to_pot(60);
    assert_eq!(g.complete_current_round(None), Ok(()));
    assert_eq!(g.players[2].balance, 810);
    let res = &g.round_history[0];
    assert_eq!(res.winner_id, "player_2");
    assert_eq!(res.correct_answers, 1);
    assert_eq!(res.player_scores, vec![(id("player_2"), 1), (id("player_0"), 0), (id("player_1"), 0)]);
}

#[test]
fn complete_current_round_errors() {
    let mut g = start_new_game(names(2));
    assert_eq!(g.complete_current_round(Some(id("nobody"))), Err(GameError::PlayerNotFound));
    g.player_fold(&id("player_0")).unwrap();
    g.player_fold(&id("player_1")).unwrap();
    assert_eq!(g.complete_current_round(None), Err(GameError::WinnerNotDeterminable));
    assert!(g.current_round.is_some());
    let mut g = GameState::new(names(2));
    assert_eq!(g.complete_current_round(None), Ok(()));
    assert!(g.round_history.is_empty());
}

#[test]
fn reset_game_restores_start() {
    let mut g = start_new_game(names(3));
    g.collect_initial_bets().unwrap();
    g.complete_current_round(Some(id("player_0"))).unwrap();
    g.players[1].balance = 0;
    g.players[2].fold();
    g.is_finished = true;
    g.reset_game();
    assert_eq!(g.round_number, 1);
    assert!(!g.is_finished);
    let r = g.current_round.as_ref().unwrap();
    assert_eq!(r.round_number, 1);
    assert_eq!(r.pot, 0);
    for p in &g.players {
        assert_eq!(p.balance, 750);
        assert_eq!(p.current_bet, 0);
        assert!(p.is_active);
        assert!(!p.has_folded);
        assert!(p.answers.is_empty());
    }
}

#[test]
fn leaderboard_orders_by_balance() {
    let mut g = GameState::new(names(4));
    g.players[0].balance = 100;
    g.players[1].balance = 300;
    g.players[2].balance = 100;
    g.players[3].balance = 200;
    let board: Vec<(String, i32)> =
        g.get_leaderboard().iter().map(|(p, b)| (p.id.clone(), *b)).collect();
    assert_eq!(
        board,
        vec![
            (id("player_1"), 300),
            (id("player_3"), 200),
            (id("player_0"), 100),
            (id("player_2"), 100)
        ]
    );
}

#[test]
fn leaderboard_of_empty_game() {
    let g = GameState::new(Vec::new());
    assert!(g.get_leaderboard().is_empty());
}

#[test]
fn active_game_requires_a_game() {
    let mut slot: Option<GameState> = None;
    assert!(matches!(active_game(&mut slot), Err(GameError::NoActiveGame)));
    let mut slot = Some(start_new_game(names(2)));
    active_game(&mut slot).unwrap().toggle_video_mode();
    assert!(slot.as_ref().unwrap().video_mode_active);
}
